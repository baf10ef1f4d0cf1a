//! What callers hand in to create or change the suite's reference data.

use vstd::prelude::*;

verus! {

/// What it takes to register a user.
#[derive(Debug, Clone, PartialEq, Eq)]
pub struct CreateUser {
    pub email: String,
    pub name: String,
    pub password_hash: String,
    pub role: String,
}

/// The changes asked for on a user; what is `None` stays as it is.
#[derive(Debug, Clone, PartialEq, Eq)]
pub struct UpdateUser {
    pub email: Option<String>,
    pub name: Option<String>,
    pub role: Option<String>,
    pub is_active: Option<bool>,
}

/// What it takes to register a currency.
#[derive(Debug, Clone, PartialEq, Eq)]
pub struct CreateCurrency {
    pub code: String,
    pub name: String,
    pub symbol: Option<String>,
}

/// Which columns of a user an update writes.
#[derive(Clone, Copy, Debug, PartialEq, Eq, Structural)]
pub enum UserUpdatePlan {
    NameAndEmail,
    NameOnly,
    EmailOnly,
    /// Nothing is written; the user is read as it stands.
    Nothing,
}

impl UpdateUser {
    /// Which columns this update writes: the name and the email address
    /// where they are given; role and activity are not written.
    pub open spec fn spec_plan(&self) -> UserUpdatePlan {
        if self.name is Some && self.email is Some {
            UserUpdatePlan::NameAndEmail
        } else if self.name is Some {
            UserUpdatePlan::NameOnly
        } else if self.email is Some {
            UserUpdatePlan::EmailOnly
        } else {
            UserUpdatePlan::Nothing
        }
    }

    /// Which columns this update writes.
    pub fn plan(&self) -> (r: UserUpdatePlan)
        ensures
            r == self.spec_plan(),
    {
        if self.name.is_some() && self.email.is_some() {
            UserUpdatePlan::NameAndEmail
        } else if self.name.is_some() {
            UserUpdatePlan::NameOnly
        } else if self.email.is_some() {
            UserUpdatePlan::EmailOnly
        } else {
            UserUpdatePlan::Nothing
        }
    }
}

} // verus!
