use domain_expiry::{classify, Domain, NOT_FREE};

#[test]
fn listed_labels_are_not_free() {
    assert!(!classify("example.org"));
    assert!(!classify("example.ua"));
    assert!(!classify("example.top"));
}

#[test]
fn other_labels_are_free() {
    assert!(classify("example.com"));
    assert!(classify("example.net"));
    assert!(classify("example.orga"));
    assert!(classify("example.or"));
    assert!(classify("example.u"));
}

#[test]
fn host_without_full_stop_is_free() {
    assert!(classify("noTLDatall"));
    assert!(classify("org"));
    assert!(classify("ua"));
    assert!(classify("top"));
}

#[test]
fn empty_host_is_free() {
    assert!(classify(""));
}

#[test]
fn trailing_full_stop_leaves_an_empty_label() {
    assert!(classify("trailing."));
    assert!(classify("example.org."));
    assert!(classify("."));
}

#[test]
fn leading_full_stop_counts() {
    assert!(!classify(".org"));
    assert!(classify(".com"));
}

#[test]
fn only_the_last_label_counts() {
    assert!(!classify("a.b.c.ua"));
    assert!(!classify("www.example.com.top"));
    assert!(classify("org.example.com"));
    assert!(classify("ua.top.org.io"));
    assert!(!classify("..org"));
}

#[test]
fn labels_are_compared_letter_for_letter() {
    assert!(classify("example.ORG"));
    assert!(classify("example.Org"));
    assert!(classify("example.UA"));
    assert!(classify("example. org"));
    assert!(classify("example.org "));
}

#[test]
fn host_with_letters_beyond_ascii() {
    assert!(!classify("пример.ua"));
    assert!(classify("example.укр"));
    assert!(classify("example.ôrg"));
}

#[test]
fn the_list_holds_three_labels() {
    assert_eq!(NOT_FREE, ["ua", "top", "org"]);
}

#[test]
fn classify_agrees_with_the_list_on_each_label() {
    for label in NOT_FREE {
        assert!(!classify(&format!("host.{}", label)));
        assert!(classify(&format!("host.{}x", label)));
        assert!(classify(&format!("host.x{}", label)));
        assert!(classify(&format!("{}.host", label)));
    }
}

#[test]
fn a_domain_keeps_its_host_and_its_mark() {
    let domain = Domain::new("example.org");
    assert_eq!(domain.host(), "example.org");
    assert!(!domain.free());
    let domain = Domain::new("example.com");
    assert_eq!(domain.host(), "example.com");
    assert!(domain.free());
    let domain = Domain::new("");
    assert_eq!(domain.host(), "");
    assert!(domain.free());
}

#[test]
fn a_domain_is_marked_as_classify_says() {
    for host in ["a.ua", "a.top", "a.org", "a.com", "a", "a.", ".a", "x.y.z", "x.y.org"] {
        assert_eq!(Domain::new(host).free(), classify(host));
        assert_eq!(Domain::new(host).host(), host);
    }
}

#[test]
fn a_domain_shows_its_mark_and_its_host() {
    assert_eq!(
        format!("{:?}", Domain::new("example.org")),
        "Domain { free: false, host: \"example.org\" }"
    );
}
