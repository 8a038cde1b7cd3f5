//! Verified core of the DHDesktop shell around the `dsh` agent runtime:
//! where the runtime's files live, how an executable is found, what the
//! profile manifest says, how a proxied request head is rewritten, and the
//! lifecycle state machine of the backend process.

pub mod text;
pub mod paths;
pub mod locate;
pub mod urlparts;
pub mod backend;
pub mod proxy;
pub mod json;
pub mod profile;
