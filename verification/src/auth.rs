//! Sessions: who is calling, how they proved it, and what they may do.
use crate::raw::UserRow;
use crate::store::Store;
use crate::tables::Tables;
use crate::token::{some_owned_by, token_views, Token};
use crate::user::User;
use crate::{token_text, NoteError};
use crate::capability::bcrypt_verdict;
use vstd::prelude::*;

verus! {

/// How a session was opened.
#[derive(Clone, Copy, Debug, PartialEq, Eq, Structural)]
pub enum AuthLevel {
    /// With the user's password.
    Password,
    /// With a bearer token.
    Token,
}

/// A credential: a nickname with its password, or a user id with a token
/// secret.
pub enum Auth {
    Password((String, String)),
    Token((u32, String)),
}

/// A session, as contracts see it.
pub struct Session {
    pub id: nat,
    pub nickname: Seq<char>,
    pub email: Seq<char>,
    pub admin: bool,
    pub level: AuthLevel,
}

/// The session that a stored user gets at the given level. It holds no
/// secret.
pub open spec fn session_of(user: UserRow, level: AuthLevel) -> Session {
    Session { id: user.id, nickname: user.nickname, email: user.email, admin: user.admin, level }
}

/// Why a credential opens no session.
pub enum Refusal {
    /// No user goes by the nickname.
    NoSuchNickname,
    /// The password is not the one that the stored hash was made from.
    WrongPassword,
    /// The stored hash is no hash that the hasher can read.
    UnreadableHash,
    /// No stored token holds the secret for the user id.
    WrongToken,
    /// A token matched, and no user is stored under the id.
    NoSuchId,
}

impl Refusal {
    /// The error that tells of the refusal: a missing user is
    /// `UserNotFound`, everything else an `AuthError`.
    pub open spec fn told_by(self, e: NoteError) -> bool {
        match self {
            Refusal::NoSuchNickname => e is UserNotFound && e.reads("Not found user by nickname"),
            Refusal::WrongPassword => e is AuthError && e.reads("Wrong password"),
            Refusal::UnreadableHash => e is AuthError && e.reads("Failed compare password"),
            Refusal::WrongToken => e is AuthError && e.reads("Wrong token"),
            Refusal::NoSuchId => e is UserNotFound && e.reads("Not found user by id"),
        }
    }
}

/// What a password opens for a stored user.
pub open spec fn password_opens(user: UserRow, password: Seq<char>) -> Result<Session, Refusal> {
    match bcrypt_verdict(password, user.password) {
        Some(true) => Ok(session_of(user, AuthLevel::Password)),
        Some(false) => Err(Refusal::WrongPassword),
        None => Err(Refusal::UnreadableHash),
    }
}

/// What a nickname and a password open in a store: the user is looked up
/// by nickname, and the password checked against the stored hash.
pub open spec fn password_login(t: Tables, name: Seq<char>, password: Seq<char>) -> Result<
    Session,
    Refusal,
> {
    match t.user_named(name) {
        None => Err(Refusal::NoSuchNickname),
        Some(user) => password_opens(user, password),
    }
}

/// What a user id and a token secret open in a store: some stored token
/// must hold the secret for the user id, whichever of the two is wrong
/// otherwise, and the user is then looked up by id.
pub open spec fn token_login(t: Tables, user_id: nat, secret: Seq<char>) -> Result<
    Session,
    Refusal,
> {
    if !t.token_opens(user_id, secret) {
        Err(Refusal::WrongToken)
    } else {
        match t.user(user_id) {
            None => Err(Refusal::NoSuchId),
            Some(user) => Ok(session_of(user, AuthLevel::Token)),
        }
    }
}

/// What a credential opens in a store.
pub open spec fn login(auth: Auth, t: Tables) -> Result<Session, Refusal> {
    match auth {
        Auth::Password((name, password)) => password_login(t, name@, password@),
        Auth::Token((user_id, secret)) => token_login(t, user_id as nat, secret@),
    }
}

/// The result of resolving a credential is the session that it opens, or
/// the error that tells why it opens none.
pub open spec fn answers(
    r: Result<AuthUser, NoteError>,
    expected: Result<Session, Refusal>,
) -> bool {
    match expected {
        Ok(session) => r matches Ok(s) && s@ == session,
        Err(why) => r matches Err(e) && why.told_by(e),
    }
}

/// A verified user. Only a credential that was checked yields one.
pub struct AuthUser {
    id: u32,
    nickname: String,
    email: String,
    admin: bool,
    level: AuthLevel,
}

impl View for AuthUser {
    type V = Session;

    closed spec fn view(&self) -> Session {
        Session {
            id: self.id as nat,
            nickname: self.nickname@,
            email: self.email@,
            admin: self.admin,
            level: self.level,
        }
    }
}

/// What can overwrite its own row in the store on behalf of a session.
pub trait AuthUpdate {
    /// Overwrites the row. A failure leaves the store as it was.
    fn update(&self, store: &mut Store, user: &AuthUser) -> (r: Result<(), NoteError>)
        requires
            old(store).wf(),
        ensures
            final(store).wf(),
            r is Err ==> final(store)@ == old(store)@,
    ;
}

/// What can add itself to the store on behalf of a session.
pub trait AuthInsert {
    /// Adds the row and returns its id. A failure leaves the store as it
    /// was.
    fn insert(&self, store: &mut Store, user: &AuthUser) -> (r: Result<u32, NoteError>)
        requires
            old(store).wf(),
        ensures
            final(store).wf(),
            r is Err ==> final(store)@ == old(store)@,
    ;
}

/// What can take itself out of the store on behalf of a session.
pub trait AuthDelete {
    /// Takes the row out. A failure leaves the store as it was.
    fn delete(&self, store: &mut Store, user: &AuthUser) -> (r: Result<(), NoteError>)
        requires
            old(store).wf(),
        ensures
            final(store).wf(),
            r is Err ==> final(store)@ == old(store)@,
    ;
}

impl AuthUser {
    pub fn get_id(&self) -> (id: u32)
        ensures
            id == self@.id,
    {
        self.id
    }

    pub fn get_nickname(&self) -> (s: &str)
        ensures
            s@ == self@.nickname,
    {
        self.nickname.as_str()
    }

    pub fn get_email(&self) -> (s: &str)
        ensures
            s@ == self@.email,
    {
        self.email.as_str()
    }

    pub fn get_level(&self) -> (level: AuthLevel)
        ensures
            level == self@.level,
    {
        self.level
    }

    pub fn is_admin(&self) -> (b: bool)
        ensures
            b == self@.admin,
    {
        self.admin
    }

    /// What stands before every change to posts, edges and history: it passes
    /// admins and nobody else.
    pub fn auth(&self) -> (r: Result<(), NoteError>)
        ensures
            match r {
                Ok(_) => self@.admin,
                Err(e) => !self@.admin && e is NoPermission && e.reads("You are not admin"),
            },
    {
        match self.is_admin() {
            true => Ok(()),
            false => Err(NoteError::no_permission("You are not admin")),
        }
    }

    /// Issues a new token for the session's user and returns its secret,
    /// which is stored and cannot be read back through this call again.
    /// Only a session opened with the password may do so.
    ///
    /// Fails, with the store unchanged, with `NoPermission` for a session
    /// opened with a token, and with an `SQLError` if the tokens table has
    /// handed out its last id.
    pub fn add_token(&self, store: &mut Store) -> (r: Result<String, NoteError>)
        requires
            old(store).wf(),
        ensures
            final(store).wf(),
            match r {
                Ok(secret) => {
                    &&& self@.level is Password
                    &&& old(store)@.token_seq < u32::MAX
                    &&& token_text(secret@)
                    &&& final(store)@ == old(store)@.with_token(self@.id, secret@)
                },
                Err(e) => {
                    &&& final(store)@ == old(store)@
                    &&& if self@.level is Password {
                        &&& e is SQLError
                        &&& e.reads("No id is left in the table")
                        &&& old(store)@.token_seq == u32::MAX
                    } else {
                        e is NoPermission && e.reads("Only password auth can add token")
                    }
                },
            },
    {
        match self.level {
            AuthLevel::Password => (),
            AuthLevel::Token => {
                return Err(NoteError::no_permission("Only password auth can add token"));
            },
        };
        let token = Token::new(self.id);
        match token.insert(store, self) {
            Ok(_) => Ok(token.get_token().to_owned()),
            Err(e) => Err(e),
        }
    }

    /// The session of a user at a level. The caller has checked the
    /// credential.
    pub(crate) fn from_user(user: &User, level: AuthLevel) -> (s: AuthUser)
        ensures
            s@ == session_of(user@, level),
    {
        AuthUser {
            id: user.get_id(),
            nickname: user.get_nickname().to_owned(),
            email: user.get_email().to_owned(),
            admin: user.is_admin(),
            level,
        }
    }

    /// What a password check decides: a match passes, a mismatch is an
    /// `AuthError`, and a check that failed hands its error on.
    pub fn password_outcome(checked: Result<bool, NoteError>) -> (r: Result<(), NoteError>)
        ensures
            match checked {
                Ok(true) => r is Ok,
                Ok(false) => r matches Err(e) && e is AuthError && e.reads("Wrong password"),
                Err(cause) => r == Err::<(), NoteError>(cause),
            },
    {
        match checked {
            Ok(true) => Ok(()),
            Ok(false) => Err(NoteError::auth_error("Wrong password")),
            Err(cause) => Err(cause),
        }
    }

    /// Opens a session for a stored user with their password.
    ///
    /// Fails with an `AuthError` if the password is not the one that the
    /// stored hash was made from, or if the hash cannot be read.
    pub fn by_password(user: &User, plaintext: &str) -> (r: Result<AuthUser, NoteError>)
        ensures
            answers(r, password_opens(user@, plaintext@)),
    {
        match AuthUser::password_outcome(user.verify(plaintext)) {
            Ok(_) => Ok(AuthUser::from_user(user, AuthLevel::Password)),
            Err(e) => Err(e),
        }
    }

    /// Opens a session for a stored user with the tokens that hold the
    /// secret they presented.
    ///
    /// Fails with an `AuthError` if none of the tokens belongs to the user.
    pub fn by_token(user: &User, holders: &Vec<Token>) -> (r: Result<AuthUser, NoteError>)
        ensures
            answers(
                r,
                if some_owned_by(token_views(holders@), user@.id) {
                    Ok(session_of(user@, AuthLevel::Token))
                } else {
                    Err(Refusal::WrongToken)
                },
            ),
    {
        if Token::owned_by(holders, user.get_id()) {
            Ok(AuthUser::from_user(user, AuthLevel::Token))
        } else {
            Err(NoteError::auth_error("Wrong token"))
        }
    }

    /// Resolves a credential against the store.
    ///
    /// With a password: the user is looked up by nickname (`UserNotFound`
    /// if there is none) and the password checked against the stored hash
    /// (`AuthError` on a mismatch or an unreadable hash). With a token: some
    /// stored token must hold the secret for the presented user id
    /// (`AuthError` if none does, whichever of the two was wrong), and that
    /// user is then loaded (`UserNotFound` if there is none).
    pub fn try_from(item: (Auth, &Store)) -> (r: Result<AuthUser, NoteError>)
        ensures
            answers(r, login(item.0, item.1@)),
    {
        let (auth, store) = item;
        match &auth {
            Auth::Password((user_name, user_password)) => {
                let user = match User::from_nickname(user_name.as_str(), store) {
                    Ok(user) => user,
                    Err(_) => {
                        return Err(NoteError::user_not_found("Not found user by nickname"));
                    },
                };
                AuthUser::by_password(&user, user_password.as_str())
            },
            Auth::Token((user_id, user_token)) => {
                let holders = match Token::from_token(user_token.as_str(), store) {
                    Ok(list) => list,
                    Err(e) => {
                        return Err(e);
                    },
                };
                proof {
                    crate::token::lemma_opens_is_owned(
                        store@.tokens,
                        user_token@,
                        *user_id as nat,
                    );
                }
                if !Token::owned_by(&holders, *user_id) {
                    return Err(NoteError::auth_error("Wrong token"));
                }
                let user = match User::from_user_id(*user_id, store) {
                    Ok(user) => user,
                    Err(_) => {
                        return Err(NoteError::user_not_found("Not found user by id"));
                    },
                };
                proof {
                    crate::seqs::lemma_lookup_found(store@.users, *user_id as nat);
                }
                AuthUser::by_token(&user, &holders)
            },
        }
    }
}

} // verus!
