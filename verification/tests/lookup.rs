use domain_expiry::{
    resolve_expiration, Domain, LookupFailure, Whois, WhoisAs93, WhoisAs93Domain, WhoisJson,
};

#[test]
fn the_token_is_sent_behind_its_name() {
    assert_eq!(Whois::new("abc").token(), "Token=abc");
    assert_eq!(Whois::new("").token(), "Token=");
    assert_eq!(Whois::new("Token=x y").token(), "Token=Token=x y");
    assert_eq!(Whois::new("ключ").token(), "Token=ключ");
}

#[test]
fn the_client_shows_its_token() {
    assert_eq!(format!("{:?}", Whois::new("abc")), "Whois { token: \"Token=abc\" }");
}

#[test]
fn the_request_names_the_host_and_no_server() {
    let whois = Whois::new("abc");
    let request = whois.lookup_request("example.com");
    assert_eq!(request.server_hint, "");
    assert_eq!(request.target_host, "example.com");
    let request = whois.lookup_request("");
    assert_eq!(request.server_hint, "");
    assert_eq!(request.target_host, "");
}

#[test]
fn a_transport_failure_is_handed_on() {
    let whois = Whois::new("abc");
    let failure = || Err(LookupFailure::TransportFailure("no route to host".to_string()));
    assert_eq!(whois.expire_as93(Err("no route to host".to_string())), failure());
    assert_eq!(whois.expire_whoisjson(Err("no route to host".to_string())), failure());
    let domain = Domain::new("example.org");
    assert_eq!(domain.expire(&whois, Err("no route to host".to_string())), failure());
    let domain = Domain::new("example.com");
    assert_eq!(domain.expire(&whois, Err("no route to host".to_string())), failure());
    assert_eq!(domain.expire(&whois, Err(String::new())), Err(LookupFailure::TransportFailure(String::new())));
}

#[test]
fn both_services_read_a_reply_alike() {
    let whois = Whois::new("abc");
    let replies = [
        "Domain Name: EXAMPLE.COM\nexpires:2026-01-15T00:00:00Z\n",
        "Domain Name: EXAMPLE.COM\nStatus: ok\n",
        "expiry:1969-\nexpires:2026-01-15T00:00:00Z\n",
        "",
    ];
    for reply in replies {
        let expected = resolve_expiration(reply);
        assert_eq!(whois.expire_as93(Ok(reply.to_string())), expected);
        assert_eq!(whois.expire_whoisjson(Ok(reply.to_string())), expected);
        for host in ["example.com", "example.org", "example", ""] {
            assert_eq!(Domain::new(host).expire(&whois, Ok(reply.to_string())), expected);
        }
    }
}

#[test]
fn a_reply_gives_its_timestamp_through_every_way_in() {
    let whois = Whois::new("abc");
    let reply = "Domain Name: EXAMPLE.COM\nexpires:2026-01-15T00:00:00Z\n";
    assert_eq!(whois.expire_as93(Ok(reply.to_string())), Ok(1768435200));
    assert_eq!(whois.expire_whoisjson(Ok(reply.to_string())), Ok(1768435200));
    assert_eq!(Domain::new("example.com").expire(&whois, Ok(reply.to_string())), Ok(1768435200));
    assert_eq!(Domain::new("example.org").expire(&whois, Ok(reply.to_string())), Ok(1768435200));
}

#[test]
fn a_reply_without_the_field_fails_through_every_way_in() {
    let whois = Whois::new("abc");
    let reply = "Domain Name: EXAMPLE.COM\n";
    let expected = Err(LookupFailure::NoExpirationFieldFound);
    assert_eq!(whois.expire_as93(Ok(reply.to_string())), expected);
    assert_eq!(whois.expire_whoisjson(Ok(reply.to_string())), expected);
    assert_eq!(Domain::new("example.ua").expire(&whois, Ok(reply.to_string())), expected);
}

#[test]
fn the_answers_of_the_services_hold_their_dates() {
    let first = WhoisAs93 {
        domain: WhoisAs93Domain { expiration_date_in_time: "2026-01-15T00:00:00Z".to_string() },
    };
    assert_eq!(first.domain.expiration_date_in_time, "2026-01-15T00:00:00Z");
    let second = WhoisJson { expires: "2026-01-15 00:00:00".to_string() };
    assert_eq!(second.expires, "2026-01-15 00:00:00");
}
