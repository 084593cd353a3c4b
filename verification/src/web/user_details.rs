use crate::error::ServiceError;
use crate::text::str_eq;
use vstd::prelude::*;

verus! {

/// How much is told of a user.
#[derive(Debug, Copy, Clone, Hash, PartialOrd, Ord, PartialEq, Eq, Structural)]
pub enum UserDetails {
    /// What is needed to name a user.
    Identity,
    /// A user in middling detail.
    Info,
    /// All that is known of a user.
    Profile,
}

impl UserDetails {
    /// The name of a level of detail, as it is written in requests.
    pub open spec fn name_text(self) -> Seq<char> {
        match self {
            UserDetails::Identity => "identity"@,
            UserDetails::Info => "info"@,
            UserDetails::Profile => "profile"@,
        }
    }

    /// The name of this level of detail.
    pub fn name(self) -> (name: &'static str)
        ensures
            name@ == self.name_text(),
    {
        match self {
            UserDetails::Identity => "identity",
            UserDetails::Info => "info",
            UserDetails::Profile => "profile",
        }
    }

    /// The level of detail that `value` names. Any other text is refused as
    /// `InvalidEnumValue`.
    pub fn try_from(value: &str) -> (found: Result<UserDetails, ServiceError>)
        ensures
            match found {
                Ok(details) => details.name_text() == value@,
                Err(error) => error == ServiceError::InvalidEnumValue && forall|details: UserDetails|
                    details.name_text() != value@,
            },
    {
        if str_eq(value, "identity") {
            Ok(UserDetails::Identity)
        } else if str_eq(value, "info") {
            Ok(UserDetails::Info)
        } else if str_eq(value, "profile") {
            Ok(UserDetails::Profile)
        } else {
            Err(ServiceError::InvalidEnumValue)
        }
    }
}

impl Default for UserDetails {
    fn default() -> (details: UserDetails)
        ensures
            details == UserDetails::Identity,
    {
        UserDetails::Identity
    }
}

/// The part of a request that says how much of a user is asked for.
#[derive(Debug, Copy, Clone)]
pub struct UserDetailsQuery {
    pub detail: UserDetails,
}

/// No two levels of detail share a name, so a name read back gives the level
/// it was written for.
pub proof fn lemma_names_differ(first: UserDetails, second: UserDetails)
    requires
        first.name_text() == second.name_text(),
    ensures
        first == second,
{
    reveal_strlit("identity");
    reveal_strlit("info");
    reveal_strlit("profile");
    assert("identity"@.len() == 8);
    assert("info"@.len() == 4);
    assert("profile"@.len() == 7);
}

} // verus!
