//! The client of the lookup services: what it asks of the transport, and what
//! it makes of the answer.
use vstd::prelude::*;
use vstd::string::StringExecFns;
use crate::resolve::{reply_resolution, resolve_expiration, LookupFailure};

verus! {

/// What the transport is asked: which server to turn to, and which host to
/// ask about.
#[derive(Debug)]
pub struct LookupRequest {
    /// Empty: the choice of the server is left to the transport.
    pub server_hint: String,
    pub target_host: String,
}

/// The part of the first service's answer that tells of the domain.
#[derive(Debug)]
pub struct WhoisAs93Domain {
    pub expiration_date_in_time: String,
}

/// The answer of the first service, the one for free domains.
#[derive(Debug)]
pub struct WhoisAs93 {
    pub domain: WhoisAs93Domain,
}

/// The answer of the second service, the one for the other domains.
#[derive(Debug)]
pub struct WhoisJson {
    pub expires: String,
}

/// The client. It holds the token that the services ask for, and nothing else.
#[derive(Debug)]
pub struct Whois {
    token: String,
}

impl View for Whois {
    type V = Seq<char>;

    /// The token, as it is sent.
    closed spec fn view(&self) -> Seq<char> {
        self.token@
    }
}

impl Whois {
    /// A client with the token `token`, which is sent behind `Token=`.
    pub fn new(token: &str) -> (whois: Whois)
        ensures
            whois@ == "Token="@ + token@,
    {
        let token = String::from_str("Token=").concat(token);
        Whois { token }
    }

    /// The token, as it is sent.
    pub fn token(&self) -> (r: &str)
        ensures
            r@ == self@,
    {
        self.token.as_str()
    }

    /// What to ask the transport about `host`: the host itself, with no hint
    /// at a server.
    pub fn lookup_request(&self, host: &str) -> (request: LookupRequest)
        ensures
            request.server_hint@ == Seq::<char>::empty(),
            request.target_host@ == host@,
    {
        LookupRequest { server_hint: String::new(), target_host: host.to_owned() }
    }

    /// What the service for free domains makes of the transport's `reply`.
    pub open spec fn as93_resolution(&self, reply: Result<String, String>) -> Result<
        u64,
        LookupFailure,
    > {
        reply_resolution(reply)
    }

    /// What the service for the other domains makes of the transport's
    /// `reply`.
    pub open spec fn whoisjson_resolution(&self, reply: Result<String, String>) -> Result<
        u64,
        LookupFailure,
    > {
        reply_resolution(reply)
    }

    /// The two services read a reply alike.
    pub proof fn lemma_services_agree(&self, reply: Result<String, String>)
        ensures
            self.as93_resolution(reply) == self.whoisjson_resolution(reply),
            self.as93_resolution(reply) == reply_resolution(reply),
    {
    }

    /// What the transport's `reply` comes to: its failure handed on as it is,
    /// or what its text reads as.
    fn expire_whois_lookup(&self, reply: Result<String, String>) -> (r: Result<
        u64,
        LookupFailure,
    >)
        ensures
            r == reply_resolution(reply),
    {
        match reply {
            Ok(text) => resolve_expiration(text.as_str()),
            Err(account) => Err(LookupFailure::TransportFailure(account)),
        }
    }

    /// The service for free domains: what the transport's `reply` to its
    /// request comes to.
    pub fn expire_as93(&self, reply: Result<String, String>) -> (r: Result<u64, LookupFailure>)
        ensures
            r == self.as93_resolution(reply),
    {
        self.expire_whois_lookup(reply)
    }

    /// The service for the other domains: what the transport's `reply` to its
    /// request comes to.
    pub fn expire_whoisjson(&self, reply: Result<String, String>) -> (r: Result<
        u64,
        LookupFailure,
    >)
        ensures
            r == self.whoisjson_resolution(reply),
    {
        self.expire_whois_lookup(reply)
    }
}

} // verus!
