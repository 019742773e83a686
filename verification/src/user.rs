//! Users: registration, lookup, and the one change a user may make, to
//! their own profile.
use crate::auth::{password_login, AuthLevel, AuthUpdate, AuthUser, Refusal, Session};
use crate::capability::{bcrypt_hash, bcrypt_verdict, bcrypt_verify};
use crate::insert::InsertUser;
use crate::raw::{RawUser, UserRow};
use crate::store::Store;
use crate::tables::{named, Tables};
use crate::NoteError;
use vstd::prelude::*;

verus! {

/// A user. `password` holds the plain password until the user is stored,
/// and the hash afterwards and when read from the store.
pub struct User {
    id: u32,
    nickname: String,
    password: String,
    email: String,
    admin: bool,
}

impl View for User {
    type V = UserRow;

    closed spec fn view(&self) -> UserRow {
        UserRow {
            id: self.id as nat,
            nickname: self.nickname@,
            password: self.password@,
            email: self.email@,
            admin: self.admin,
        }
    }
}

/// Hashes a password; a failure of the hasher is an `AuthError`.
pub(crate) fn hash_password(password: &str) -> (r: Result<String, NoteError>)
    ensures
        match r {
            Ok(h) => bcrypt_verdict(password@, h@) == Some(true),
            Err(e) => e is AuthError && e.reads("Failed to hash password"),
        },
{
    match bcrypt_hash(password) {
        Ok(h) => Ok(h),
        Err(_) => Err(NoteError::auth_error("Failed to hash password")),
    }
}

impl User {
    pub fn get_id(&self) -> (id: u32)
        ensures
            id == self@.id,
    {
        self.id
    }

    pub fn get_nickname(&self) -> (s: &str)
        ensures
            s@ == self@.nickname,
    {
        self.nickname.as_str()
    }

    pub fn get_email(&self) -> (s: &str)
        ensures
            s@ == self@.email,
    {
        self.email.as_str()
    }

    pub fn is_admin(&self) -> (b: bool)
        ensures
            b == self@.admin,
    {
        self.admin
    }

    /// A user who is not stored yet and is no admin; without an id, 0.
    pub fn new(id: Option<u32>, nickname: String, password: String, email: String) -> (u: User)
        ensures
            u@ == (UserRow {
                id: match id {
                    Some(i) => i as nat,
                    None => 0,
                },
                nickname: nickname@,
                password: password@,
                email: email@,
                admin: false,
            }),
    {
        let id: u32 = match id {
            Some(i) => i,
            None => 0,
        };
        User { id, admin: false, nickname, password, email }
    }

    /// The user that a stored row describes.
    pub fn from(raw: RawUser) -> (u: User)
        ensures
            u@ == raw@,
    {
        User {
            id: raw.id,
            nickname: raw.nickname,
            password: raw.password,
            email: raw.email,
            admin: raw.admin,
        }
    }

    /// Whether the password is the one that the stored hash was made from.
    /// Only meaningful for a user read from the store; a hash that the
    /// hasher cannot read is an `AuthError`.
    pub(crate) fn verify(&self, password: &str) -> (r: Result<bool, NoteError>)
        ensures
            match bcrypt_verdict(password@, self@.password) {
                Some(b) => r matches Ok(v) && v == b,
                None => r matches Err(e) && e is AuthError && e.reads("Failed compare password"),
            },
    {
        match bcrypt_verify(password, self.password.as_str()) {
            Ok(b) => Ok(b),
            Err(_) => Err(NoteError::auth_error("Failed compare password")),
        }
    }

    /// Prepares the user for registration with the given outcome of hashing
    /// the password, and returns the row to store: the user is no admin,
    /// and keeps the hash in place of the password. A failed hashing hands
    /// its error on and leaves the password as it was.
    pub fn registration_row_with(&mut self, hashed: Result<String, NoteError>) -> (r: Result<
        InsertUser,
        NoteError,
    >)
        ensures
            final(self)@ == (UserRow {
                admin: false,
                password: match hashed {
                    Ok(h) => h@,
                    Err(_) => old(self)@.password,
                },
                ..old(self)@
            }),
            match hashed {
                Ok(h) => {
                    &&& r matches Ok(row)
                    &&& row.nickname@ == old(self)@.nickname
                    &&& row.email@ == old(self)@.email
                    &&& row.password@ == h@
                },
                Err(cause) => r == Err::<InsertUser, NoteError>(cause),
            },
    {
        self.admin = false;
        match hashed {
            Ok(h) => {
                self.password = h;
                Ok(InsertUser::from((&*self, self.password.as_str())))
            },
            Err(cause) => Err(cause),
        }
    }

    /// Prepares the user for registration and returns the row to store:
    /// the user is no admin, and the password is hashed and the hash kept in
    /// its place. The hash is one that the password verifies against.
    ///
    /// Fails with an `AuthError`, the password left as it was, if the hasher
    /// failed.
    pub fn registration_row(&mut self) -> (r: Result<InsertUser, NoteError>)
        ensures
            final(self)@.id == old(self)@.id,
            final(self)@.nickname == old(self)@.nickname,
            final(self)@.email == old(self)@.email,
            !final(self)@.admin,
            match r {
                Ok(row) => {
                    &&& row.nickname@ == old(self)@.nickname
                    &&& row.email@ == old(self)@.email
                    &&& row.password@ == final(self)@.password
                    &&& bcrypt_verdict(old(self)@.password, final(self)@.password) == Some(true)
                },
                Err(e) => {
                    &&& e is AuthError
                    &&& e.reads("Failed to hash password")
                    &&& final(self)@.password == old(self)@.password
                },
            },
    {
        let hashed = hash_password(self.password.as_str());
        self.registration_row_with(hashed)
    }

    /// Stores the user with the given outcome of hashing the password, as a
    /// new user who is no admin, and returns the new id. The user keeps the
    /// hash in place of the password.
    ///
    /// Fails, with the store unchanged, with the hasher's error if hashing
    /// failed, and with an `SQLError` if the nickname is taken or the users
    /// table has handed out its last id.
    pub fn insert_hashed(&mut self, store: &mut Store, hashed: Result<String, NoteError>) -> (r:
        Result<u32, NoteError>)
        requires
            old(store).wf(),
        ensures
            final(store).wf(),
            final(self)@ == (UserRow {
                admin: false,
                password: match hashed {
                    Ok(h) => h@,
                    Err(_) => old(self)@.password,
                },
                ..old(self)@
            }),
            match hashed {
                Err(cause) => r == Err::<u32, NoteError>(cause) && final(store)@ == old(store)@,
                Ok(h) => if old(store)@.user_fits(old(self)@.nickname) {
                    &&& r matches Ok(id)
                    &&& id == old(store)@.user_seq + 1
                    &&& final(store)@ == old(store)@.with_user(
                        old(self)@.nickname,
                        old(self)@.email,
                        h@,
                    )
                } else {
                    &&& r matches Err(e)
                    &&& e is SQLError
                    &&& if old(store)@.user_seq == u32::MAX {
                        e.reads("No id is left in the table")
                    } else {
                        e.reads("The nickname is taken")
                    }
                    &&& final(store)@ == old(store)@
                },
            },
    {
        match self.registration_row_with(hashed) {
            Ok(row) => store.add_user(row),
            Err(cause) => Err(cause),
        }
    }

    /// Hashes the password and stores the user as a new user who is no
    /// admin; returns the new id. The user keeps the hash in place of the
    /// password, and the hash is one that the password verifies against.
    ///
    /// Fails, with the store unchanged, with an `AuthError` if the hasher
    /// failed, and with an `SQLError` if the nickname is taken or the users
    /// table has handed out its last id.
    pub fn insert(&mut self, store: &mut Store) -> (r: Result<u32, NoteError>)
        requires
            old(store).wf(),
        ensures
            final(store).wf(),
            final(self)@.id == old(self)@.id,
            final(self)@.nickname == old(self)@.nickname,
            final(self)@.email == old(self)@.email,
            !final(self)@.admin,
            match r {
                Ok(id) => {
                    &&& old(store)@.user_fits(old(self)@.nickname)
                    &&& id == old(store)@.user_seq + 1
                    &&& bcrypt_verdict(old(self)@.password, final(self)@.password) == Some(true)
                    &&& final(store)@ == old(store)@.with_user(
                        old(self)@.nickname,
                        old(self)@.email,
                        final(self)@.password,
                    )
                },
                Err(e) => {
                    &&& final(store)@ == old(store)@
                    &&& if e is AuthError {
                        e.reads("Failed to hash password")
                    } else if old(store)@.user_seq == u32::MAX {
                        e is SQLError && e.reads("No id is left in the table")
                    } else {
                        &&& e is SQLError
                        &&& e.reads("The nickname is taken")
                        &&& old(store)@.user_named(old(self)@.nickname) is Some
                    }
                },
            },
    {
        let hashed = hash_password(self.password.as_str());
        self.insert_hashed(store, hashed)
    }

    /// The user that goes by `name`; an `SQLError` if there is none.
    pub fn from_nickname(name: &str, store: &Store) -> (r: Result<User, NoteError>)
        ensures
            match store@.user_named(name@) {
                Some(row) => r matches Ok(u) && u@ == row,
                None => r matches Err(e) && e is SQLError && e.reads(
                    "Failed to query user from nickname",
                ),
            },
    {
        match store.user_named(name) {
            Some(raw) => Ok(User::from(raw)),
            None => Err(NoteError::sql_error("Failed to query user from nickname")),
        }
    }

    /// The user stored under `user_id`; an `SQLError` if there is none.
    pub fn from_user_id(user_id: u32, store: &Store) -> (r: Result<User, NoteError>)
        ensures
            match store@.user(user_id as nat) {
                Some(row) => r matches Ok(u) && u@ == row,
                None => r matches Err(e) && e is SQLError && e.reads(
                    "Failed to query user from id",
                ),
            },
    {
        match store.user_by_id(user_id) {
            Some(raw) => Ok(User::from(raw)),
            None => Err(NoteError::sql_error("Failed to query user from id")),
        }
    }
}

impl User {
    /// Whether a session may overwrite this user's profile: only a session
    /// of the user itself, opened with the password, may.
    pub fn may_update(&self, user: &AuthUser) -> (r: Result<(), NoteError>)
        ensures
            match r {
                Ok(_) => user@.level is Password && user@.id == self@.id,
                Err(e) => if !(user@.level is Password) {
                    e is NoPermission && e.reads("Only password auth can update user profile")
                } else {
                    &&& user@.id != self@.id
                    &&& e is NoPermission
                    &&& e.reads("Only user itself can update user profile")
                },
            },
    {
        match user.get_level() {
            AuthLevel::Password => match user.get_id() == self.id {
                true => Ok(()),
                false => Err(
                    NoteError::no_permission("Only user itself can update user profile"),
                ),
            },
            AuthLevel::Token => Err(
                NoteError::no_permission("Only password auth can update user profile"),
            ),
        }
    }

    /// The row that a session may write over this user's profile, with the
    /// given outcome of hashing the new password: the nickname, the email,
    /// and the hash.
    ///
    /// Fails with `NoPermission` for a session that may not update the
    /// profile, and else hands on the error of a failed hashing.
    pub fn profile_row_with(&self, user: &AuthUser, hashed: Result<String, NoteError>) -> (r:
        Result<InsertUser, NoteError>)
        ensures
            if !(user@.level is Password) {
                r matches Err(e) && e is NoPermission && e.reads(
                    "Only password auth can update user profile",
                )
            } else if user@.id != self@.id {
                r matches Err(e) && e is NoPermission && e.reads(
                    "Only user itself can update user profile",
                )
            } else {
                match hashed {
                    Ok(h) => {
                        &&& r matches Ok(row)
                        &&& row.nickname@ == self@.nickname
                        &&& row.email@ == self@.email
                        &&& row.password@ == h@
                    },
                    Err(cause) => r == Err::<InsertUser, NoteError>(cause),
                }
            },
    {
        match self.may_update(user) {
            Ok(_) => {},
            Err(e) => {
                return Err(e);
            },
        }
        match hashed {
            Ok(h) => Ok(InsertUser::from((self, h.as_str()))),
            Err(cause) => Err(cause),
        }
    }

    /// The row that a session may write over this user's profile: the
    /// nickname, the email, and a fresh hash of the new password, which is
    /// one that the password verifies against.
    ///
    /// Fails with `NoPermission` for a session that may not update the
    /// profile, and else with an `AuthError` if the hasher failed.
    pub fn profile_row(&self, user: &AuthUser) -> (r: Result<InsertUser, NoteError>)
        ensures
            match r {
                Ok(row) => {
                    &&& user@.level is Password
                    &&& user@.id == self@.id
                    &&& row.nickname@ == self@.nickname
                    &&& row.email@ == self@.email
                    &&& bcrypt_verdict(self@.password, row.password@) == Some(true)
                },
                Err(e) => if !(user@.level is Password) {
                    e is NoPermission && e.reads("Only password auth can update user profile")
                } else if user@.id != self@.id {
                    e is NoPermission && e.reads("Only user itself can update user profile")
                } else {
                    e is AuthError && e.reads("Failed to hash password")
                },
            },
    {
        match self.may_update(user) {
            Ok(_) => {},
            Err(e) => {
                return Err(e);
            },
        }
        let hashed = hash_password(self.password.as_str());
        self.profile_row_with(user, hashed)
    }

    /// Overwrites the stored nickname, email and password hash of this user
    /// with the given outcome of hashing the new password. Only a session of
    /// the user itself, opened with the password, may do so.
    ///
    /// Fails, with the store unchanged: with `NoPermission` for another
    /// session; else with the hasher's error if hashing failed; else with an
    /// `SQLError` if the user is stored and another user goes by the
    /// nickname. Where no user is stored under the id, nothing changes.
    pub fn update_hashed(
        &self,
        store: &mut Store,
        user: &AuthUser,
        hashed: Result<String, NoteError>,
    ) -> (r: Result<(), NoteError>)
        requires
            old(store).wf(),
        ensures
            final(store).wf(),
            r is Err ==> final(store)@ == old(store)@,
            if !(user@.level is Password) {
                r matches Err(e) && e is NoPermission && e.reads(
                    "Only password auth can update user profile",
                )
            } else if user@.id != self@.id {
                r matches Err(e) && e is NoPermission && e.reads(
                    "Only user itself can update user profile",
                )
            } else {
                match hashed {
                    Err(cause) => r == Err::<(), NoteError>(cause),
                    Ok(h) => if old(store)@.user(self@.id) is Some && !old(store)@.profile_fits(
                        self@.id,
                        self@.nickname,
                    ) {
                        r matches Err(e) && e is SQLError && e.reads("The nickname is taken")
                    } else {
                        &&& r is Ok
                        &&& final(store)@ == old(store)@.with_profile(
                            self@.id,
                            self@.nickname,
                            self@.email,
                            h@,
                        )
                    },
                }
            },
    {
        match self.profile_row_with(user, hashed) {
            Ok(row) => store.set_profile(self.id, row),
            Err(e) => Err(e),
        }
    }
}

impl AuthUpdate for User {
    /// Hashes the user's new password and overwrites their stored nickname,
    /// email and password hash. Only a session of the user itself, opened
    /// with the password, may do so.
    ///
    /// Fails, with the store unchanged: with `NoPermission` for another
    /// session; else with an `AuthError` if the hasher failed, or an
    /// `SQLError` if the user is stored and another user goes by the
    /// nickname.
    fn update(&self, store: &mut Store, user: &AuthUser) -> (r: Result<(), NoteError>)
        ensures
            match r {
                Ok(_) => {
                    &&& user@.level is Password
                    &&& user@.id == self@.id
                    &&& exists|h: Seq<char>|
                        bcrypt_verdict(self@.password, h) == Some(true) && final(store)@
                            == #[trigger] old(store)@.with_profile(
                            self@.id,
                            self@.nickname,
                            self@.email,
                            h,
                        )
                },
                Err(e) => if !(user@.level is Password) {
                    e is NoPermission && e.reads("Only password auth can update user profile")
                } else if user@.id != self@.id {
                    e is NoPermission && e.reads("Only user itself can update user profile")
                } else if e is AuthError {
                    e.reads("Failed to hash password")
                } else {
                    &&& e is SQLError
                    &&& e.reads("The nickname is taken")
                    &&& old(store)@.user(self@.id) is Some
                    &&& !old(store)@.profile_fits(self@.id, self@.nickname)
                },
            },
    {
        match self.may_update(user) {
            Ok(_) => {},
            Err(e) => {
                return Err(e);
            },
        }
        let hashed = hash_password(self.password.as_str());
        self.update_hashed(store, user, hashed)
    }
}

/// A user who was registered with the hash of a password opens a password
/// session with their nickname and that password: the session of the new
/// user, who is no admin.
pub proof fn lemma_registered_logs_in(
    t: Tables,
    nickname: Seq<char>,
    email: Seq<char>,
    password: Seq<char>,
    hash: Seq<char>,
)
    requires
        t.user_fits(nickname),
        bcrypt_verdict(password, hash) == Some(true),
    ensures
        password_login(t.with_user(nickname, email, hash), nickname, password) == Ok::<
            Session,
            Refusal,
        >(
            Session {
                id: t.user_seq + 1,
                nickname,
                email,
                admin: false,
                level: AuthLevel::Password,
            },
        ),
{
    let row = UserRow { id: t.user_seq + 1, nickname, password: hash, email, admin: false };
    t.users.lemma_filter_push(row, named(nickname));
    assert(t.users.filter(named(nickname)).len() == 0);
}

impl InsertUser {
    /// The row to store for a user, with the given password hash.
    pub fn from(item: (&User, &str)) -> (row: InsertUser)
        ensures
            row.nickname@ == item.0@.nickname,
            row.email@ == item.0@.email,
            row.password@ == item.1@,
    {
        let (user, password) = item;
        InsertUser {
            nickname: user.get_nickname().to_owned(),
            email: user.get_email().to_owned(),
            password: password.to_owned(),
        }
    }
}

} // verus!
