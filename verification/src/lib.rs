//! Role-based authorization for a small REST backend: bearer-token
//! validation, role/permission resolution, a per-route access gate,
//! idempotent bootstrap seeding, and the mapping of failures to HTTP
//! responses.

use vstd::prelude::*;

mod decimal;
mod gate;
mod reject;
mod resolver;
mod seed;
mod settings;
mod store;
mod token;

pub use gate::{authorize, Unauthorized};
pub use reject::{handle_rejection, DevBoardErrorType, DevBoardGenericError, Failure};
pub use resolver::resolve;
pub use seed::{register_user, seed};
pub use settings::Settings;
pub use store::{Permission, Role, RolePermission, Store, StoreView, User};
pub use token::{bearer_token, decode, encode, Claim, TokenError};

verus! {

/// Startup hook for ad hoc checks during development; intentionally a no-op.
pub fn init_test() {
}

} // verus!
