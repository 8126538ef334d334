//! Finds the moment a domain's registration runs out in the free text of a
//! WHOIS reply, and tells apart the hosts whose top-level label is on a short
//! list.
//!
//! The library does no network work. A caller asks [`Whois::lookup_request`]
//! what to send, performs the query, and hands the reply to [`Domain::expire`].
pub mod date;
pub mod domain;
pub mod lookup;
pub mod resolve;
pub mod text;

pub use crate::date::{fits_date_fields, token_timestamp};
pub use crate::domain::{classify, Domain, NOT_FREE};
pub use crate::lookup::{LookupRequest, Whois, WhoisAs93, WhoisAs93Domain, WhoisJson};
pub use crate::resolve::{resolve_expiration, resolve_with, LookupFailure};
pub use crate::text::{find_expiration_line, has_expiry_keyword, is_whitespace, split_tokens};
