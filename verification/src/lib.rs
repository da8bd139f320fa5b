//! Verified core of the Ferralloy fleet plane and certificate gate.
//!
//! - `fleet`: channels, releases, canary rollouts, device reports and the
//!   rules that move them; the stable device bucket.
//! - `registry`: the name-ordered map the fleet's tables are kept in.
//! - `text`: byte order of names, text equality, character tests.
//! - `certificate`: the non-numeric decisions of the Lyapunov certificate gate.
//! - `clock`: the wall clock in seconds since the Unix epoch.

pub mod certificate;
pub mod clock;
pub mod fleet;
pub mod registry;
pub mod text;
