//! Bearer-token authorization for request handlers.
//!
//! An [`ApiToken`] holds the set of accepted credentials (each one a raw token
//! behind the `Bearer ` scheme) and an enabled switch. [`ApiToken::check`]
//! decides, from the `Authorization` header of a request alone, whether the
//! request may go on ([`Authorized`]) or is refused ([`Unauthorized`]).
//!
//! When the switch is off every request is authorized.

pub mod laws;
pub mod token;

pub use token::{ApiToken, ApiTokenView, Authorized, Unauthorized};
