//! An authentication gateway library: LDAP-style directory authentication with
//! injection-safe search filters, and CORS header negotiation.
use vstd::prelude::*;

pub mod auth;
pub mod cors;
pub mod filter;
pub mod ldap;
pub mod text;

verus! {

} // verus!
