//! The signed-in mod.io user as the front end sees it.
use vstd::prelude::*;

verus! {

/// The user a sign-in by e-mail code produced.
pub struct AuthUser {
    pub username: String,
    pub profile_url: String,
}

} // verus!
