//! User accounts: the data types, the storage contract, and the service
//! shell. Password derivation and token issuance are external
//! collaborators; only their interfaces live here.
use vstd::prelude::*;

use crate::config::SecurityConfig;

verus! {

/// A stored account.
#[derive(Debug, Clone)]
pub struct User {
    pub id: i32,
    pub name: String,
    pub password: String,
    pub nickname: String,
}

/// The public face of an account.
#[derive(Debug, Clone)]
pub struct UserInfo {
    pub nickname: String,
    pub avatar: String,
}

/// The account storage contract, implemented elsewhere.
pub trait UserDao: Sized {
    /// Stores a new account and returns its id.
    fn insert(&mut self, user: User) -> Result<i32, String>;

    /// The public face of an account, if it exists.
    fn get_by_id(&mut self, id: i32) -> Result<Option<UserInfo>, String>;

    /// The account with that name and (derived) password, if any.
    fn login(&mut self, name: &str, password: &str) -> Result<Option<User>, String>;

    /// Replaces an account's avatar.
    fn set_avatar(&mut self, uid: i32, avatar: String) -> Result<(), String>;
}

/// The account service: storage plus the security material that the
/// password derivation (an external collaborator) needs.
pub struct UserService<D: UserDao> {
    pub dao: D,
    pub security: SecurityConfig,
}

impl<D: UserDao> UserService<D> {
    /// Builds the service.
    pub fn new(dao: D, security: SecurityConfig) -> (r: Self)
        ensures
            r.security.jwt_ttl_seconds == security.jwt_ttl_seconds,
    {
        UserService { dao, security }
    }
}

} // verus!
