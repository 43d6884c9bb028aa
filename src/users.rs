use vstd::prelude::*;
use vstd::string::StrSliceExecFns;

verus! {

/// Whether `s` is an e-mail address in the HTML5 sense, as the `validator` crate decides it.
pub uninterp spec fn valid_email(s: Seq<char>) -> bool;

/// Relies on validator::ValidateEmail::validate_email for `&str`: the answer depends on the
/// characters alone, and a string without `@` is refused.
#[verifier::external_body]
pub(crate) fn email_is_valid(s: &str) -> (r: bool)
    ensures
        r == valid_email(s@),
        !s@.contains('@') ==> !r,
{
    validator::ValidateEmail::validate_email(&s)
}

/// A registration request.
pub struct CreateUser {
    pub email: String,
    pub password: String,
    pub full_name: String,
    pub phone_number: Option<String>,
}

/// A login request.
pub struct LoginUser {
    pub email: String,
    pub password: String,
}

/// A user as the API shows it.
pub struct UserResponse {
    pub id: String,
    pub email: String,
    pub full_name: String,
    pub phone_number: Option<String>,
    pub stellar_public_key: Option<String>,
}

/// A profile change; a field left out keeps its value.
pub struct UpdateUserProfile {
    pub full_name: Option<String>,
    pub phone_number: Option<String>,
}

/// The claims of a session token: the principal and the expiry time.
pub struct Claims {
    pub sub: String,
    pub exp: usize,
}

impl CreateUser {
    /// A valid e-mail, a password of six characters or more, and a name of two or more.
    pub open spec fn spec_valid(&self) -> bool {
        valid_email(self.email@) && self.password@.len() >= 6 && self.full_name@.len() >= 2
    }

    pub fn validate(&self) -> (r: bool)
        ensures
            r == self.spec_valid(),
    {
        let email_ok = email_is_valid(self.email.as_str());
        self.validate_with_email(email_ok)
    }

    /// The rules of `validate`, given whether the e-mail address is valid.
    pub fn validate_with_email(&self, email_ok: bool) -> (r: bool)
        ensures
            r == (email_ok && self.password@.len() >= 6 && self.full_name@.len() >= 2),
    {
        email_ok && self.password.as_str().unicode_len() >= 6
            && self.full_name.as_str().unicode_len() >= 2
    }
}

impl LoginUser {
    pub open spec fn spec_valid(&self) -> bool {
        valid_email(self.email@)
    }

    pub fn validate(&self) -> (r: bool)
        ensures
            r == self.spec_valid(),
    {
        email_is_valid(self.email.as_str())
    }
}

impl UpdateUserProfile {
    /// A new name, where one is given, has two characters or more.
    pub open spec fn spec_valid(&self) -> bool {
        match self.full_name {
            Some(n) => n@.len() >= 2,
            None => true,
        }
    }

    pub fn validate(&self) -> (r: bool)
        ensures
            r == self.spec_valid(),
    {
        match &self.full_name {
            Some(n) => n.as_str().unicode_len() >= 2,
            None => true,
        }
    }
}

} // verus!
