use vstd::prelude::*;

use crate::text::text_eq;

verus! {

/// What a user may do.
#[derive(PartialEq, Eq, Structural, Clone, Copy, Debug)]
pub enum Role {
    Admin,
    User,
}

pub open spec fn role_name(r: Role) -> Seq<char> {
    match r {
        Role::Admin => "admin"@,
        Role::User => "user"@,
    }
}

impl Role {
    /// The name under which the role is stored.
    pub fn as_str(&self) -> (r: &'static str)
        ensures
            r@ == role_name(*self),
    {
        match self {
            Role::Admin => "admin",
            Role::User => "user",
        }
    }

    /// The role stored under the name `s`.
    pub fn try_from(s: &str) -> (r: Result<Role, ()>)
        ensures
            r == (if s@ == "admin"@ {
                Ok::<Role, ()>(Role::Admin)
            } else if s@ == "user"@ {
                Ok::<Role, ()>(Role::User)
            } else {
                Err::<Role, ()>(())
            }),
    {
        if text_eq(s, "admin") {
            Ok(Role::Admin)
        } else if text_eq(s, "user") {
            Ok(Role::User)
        } else {
            Err(())
        }
    }
}

pub struct User {
    pub id: i64,
    pub role: Role,
    pub username: String,
}

/// The claims of a session token.
pub struct Claims {
    pub uid: i64,
    pub sub: String,
    pub role: Role,
    pub exp: usize,
}

/// The identity that the authentication layer vouches for.
pub struct AuthenticatedUser {
    pub id: i64,
    pub username: String,
    pub role: String,
}

pub struct RegAdminRequest {
    pub username: String,
    pub password: String,
}

pub struct CreateUserReq {
    pub username: String,
    pub password: String,
    pub requester_username: String,
}

pub struct DeleteUserReq {
    pub requester_username: String,
    pub target_username: String,
}

pub struct LoginRequest {
    pub username: String,
    pub password: String,
}

} // verus!
