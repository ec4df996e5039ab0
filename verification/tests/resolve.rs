use tlsi::resolve::{
    domain_from, first_address, lookup_name, HostError, DOMAIN_GROUP, HOST_PATTERN,
};

#[test]
fn the_pattern_is_the_one_for_hosts() {
    assert_eq!(HOST_PATTERN, "(?s)^([a-zA-Z]*://)?(?<domain>.*)");
    assert_eq!(DOMAIN_GROUP, "domain");
}

#[test]
fn the_name_is_what_the_pattern_captures() {
    let re = regex::Regex::new(HOST_PATTERN).unwrap();
    for host in ["example.com", "https://example.com", "", "://", "h2://x", "1.2.3.4", "a\nb", "x://y://z"] {
        let expected = re.captures(host).map(|caps| caps[DOMAIN_GROUP].to_string());
        assert_eq!(lookup_name(host).ok(), expected, "{host:?}");
    }
}

#[test]
fn the_name_is_the_host_without_its_scheme() {
    assert_eq!(lookup_name("https://example.com"), Ok("example.com".to_string()));
    assert_eq!(lookup_name("quic://example.com"), Ok("example.com".to_string()));
    assert_eq!(lookup_name("HTTP://Example.COM"), Ok("Example.COM".to_string()));
    assert_eq!(lookup_name("://example.com"), Ok("example.com".to_string()));
}

#[test]
fn a_host_without_a_scheme_is_looked_up_as_it_is() {
    assert_eq!(lookup_name("example.com"), Ok("example.com".to_string()));
    assert_eq!(lookup_name("192.0.2.7"), Ok("192.0.2.7".to_string()));
    assert_eq!(lookup_name("localhost"), Ok("localhost".to_string()));
    assert_eq!(lookup_name(""), Ok(String::new()));
}

#[test]
fn only_letters_make_a_scheme_and_only_the_first_is_taken_off() {
    assert_eq!(lookup_name("h2://example.com"), Ok("h2://example.com".to_string()));
    assert_eq!(lookup_name("a://b://c"), Ok("b://c".to_string()));
    assert_eq!(lookup_name("line\nbreak"), Ok("line\nbreak".to_string()));
}

#[test]
fn a_capture_gives_its_text() {
    assert_eq!(domain_from(Ok(Some(Some("example.com".to_string())))), Ok("example.com".to_string()));
    assert_eq!(domain_from(Ok(Some(Some(String::new())))), Ok(String::new()));
}

#[test]
fn no_match_and_no_group_give_no_host() {
    assert_eq!(domain_from(Ok(None)), Err(HostError::NoHost));
    assert_eq!(domain_from(Ok(Some(None))), Err(HostError::NoHost));
}

#[test]
fn a_bad_pattern_is_reported() {
    let error = regex::Regex::new("(").unwrap_err();
    assert_eq!(domain_from(Err(error)), Err(HostError::BadPattern));
}

#[test]
fn the_errors_have_their_messages() {
    assert_eq!(HostError::NoHost.message(), "no host provided!");
    assert_eq!(HostError::BadPattern.message(), "the host pattern is no regular expression");
    assert_eq!(HostError::Unresolved.message(), "Could not resolve the host");
}

#[test]
fn the_first_address_found_is_the_target() {
    assert_eq!(first_address(&vec![(10u32, 443u16), (11, 443), (12, 443)]), Ok((10, 443)));
    assert_eq!(first_address(&vec![7u8]), Ok(7));
}

#[test]
fn a_lookup_that_finds_nothing_is_unresolved() {
    assert_eq!(first_address(&Vec::<(u32, u16)>::new()), Err(HostError::Unresolved));
}
