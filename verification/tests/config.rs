use convertbar::config::{token_is_strong, AuthMode, Bind, ConfigError, ServerConfig};
use convertbar::net::{
    parse_entry, parse_socket_address, parse_trusted, to_canonical, Address, Network,
};

fn bind(address: &str, port: u16) -> Bind {
    Bind {
        address: parse_entry(address).unwrap(),
        port,
    }
}

fn net(text: &str) -> Network {
    parse_trusted(text).unwrap()
}

fn vars(pairs: &[(&str, &str)]) -> Vec<(String, String)> {
    pairs
        .iter()
        .map(|(k, v)| (k.to_string(), v.to_string()))
        .collect()
}

#[test]
fn defaults_when_only_token_set() {
    let cfg = ServerConfig::from_vars(&vars(&[("CONVERTBAR_AUTH_TOKEN", "abcdefghijklmnop")]))
        .unwrap();
    assert_eq!(cfg.bind, bind("0.0.0.0", 8080));
    assert_eq!(cfg.auth, AuthMode::Token("abcdefghijklmnop".to_string()));
    assert_eq!(cfg.allowed_hosts, Vec::<String>::new());
    assert_eq!(cfg.browse_roots, vec![String::from("/")]);
}

#[test]
fn token_at_the_floor_is_accepted() {
    let cfg = ServerConfig::from_vars(&vars(&[("CONVERTBAR_AUTH_TOKEN", "abcdefghijklmnop")]))
        .unwrap();
    assert_eq!(cfg.auth, AuthMode::Token("abcdefghijklmnop".to_string()));
}

#[test]
fn token_one_char_below_the_floor_is_rejected() {
    let err = ServerConfig::from_vars(&vars(&[("CONVERTBAR_AUTH_TOKEN", "abcdefghijklmno")]))
        .unwrap_err();
    assert_eq!(err, ConfigError::WeakToken);
}

#[test]
fn long_token_with_too_few_distinct_chars_is_rejected() {
    let err = ServerConfig::from_vars(&vars(&[(
        "CONVERTBAR_AUTH_TOKEN",
        "abababababababababababababababab",
    )]))
    .unwrap_err();
    assert_eq!(err, ConfigError::WeakToken);
}

#[test]
fn exactly_eight_distinct_chars_is_accepted_and_seven_is_not() {
    assert!(
        ServerConfig::from_vars(&vars(&[("CONVERTBAR_AUTH_TOKEN", "abcdefghabcdefgh")]))
            .is_ok()
    );
    assert_eq!(
        ServerConfig::from_vars(&vars(&[("CONVERTBAR_AUTH_TOKEN", "abcdefgabcdefgaa")]))
            .unwrap_err(),
        ConfigError::WeakToken
    );
}

#[test]
fn token_length_counts_characters_not_bytes() {
    assert!(ServerConfig::from_vars(&vars(&[(
        "CONVERTBAR_AUTH_TOKEN",
        "日本語表示試験用文字列拡張確認済"
    )]))
    .is_ok());
    assert_eq!(
        ServerConfig::from_vars(&vars(&[("CONVERTBAR_AUTH_TOKEN", "日本語表示試")]))
            .unwrap_err(),
        ConfigError::WeakToken
    );
}

#[test]
fn weak_token_is_rejected_even_when_no_auth_is_also_set() {
    let err = ServerConfig::from_vars(&vars(&[
        ("CONVERTBAR_AUTH_TOKEN", "weak"),
        ("CONVERTBAR_NO_AUTH", "1"),
    ]))
    .unwrap_err();
    assert_eq!(err, ConfigError::WeakToken);
}

#[test]
fn trusted_proxies_parse_cidr_and_bare_addresses() {
    let cfg = ServerConfig::from_vars(&vars(&[
        ("CONVERTBAR_AUTH_TOKEN", "abcdefghijklmnop"),
        (
            "CONVERTBAR_TRUSTED_PROXIES",
            "172.18.0.5,10.0.0.0/8,2001:db8::/32",
        ),
    ]))
    .unwrap();
    assert_eq!(
        cfg.trusted_proxies,
        vec![
            net("172.18.0.5/32"),
            net("10.0.0.0/8"),
            net("2001:db8::/32"),
        ]
    );
}

#[test]
fn unparsable_trusted_proxy_is_a_hard_error_not_a_skipped_entry() {
    let err = ServerConfig::from_vars(&vars(&[
        ("CONVERTBAR_AUTH_TOKEN", "abcdefghijklmnop"),
        ("CONVERTBAR_TRUSTED_PROXIES", "172.18.0.5,not-an-ip"),
    ]))
    .unwrap_err();
    assert_eq!(err, ConfigError::BadTrustedProxy("not-an-ip".to_string()));
}

#[test]
fn trusted_proxies_defaults_to_empty() {
    let cfg = ServerConfig::from_vars(&vars(&[("CONVERTBAR_AUTH_TOKEN", "abcdefghijklmnop")]))
        .unwrap();
    assert!(cfg.trusted_proxies.is_empty());
}

#[test]
fn missing_auth_without_token_or_no_auth_flag() {
    let err = ServerConfig::from_vars(&vars(&[])).unwrap_err();
    assert_eq!(err, ConfigError::MissingAuth);
}

#[test]
fn no_auth_flag_enables_open_mode() {
    let cfg = ServerConfig::from_vars(&vars(&[("CONVERTBAR_NO_AUTH", "1")])).unwrap();
    assert_eq!(cfg.auth, AuthMode::Open);
}

#[test]
fn custom_bind_and_port_are_parsed() {
    let cfg = ServerConfig::from_vars(&vars(&[
        ("CONVERTBAR_AUTH_TOKEN", "abcdefghijklmnop"),
        ("CONVERTBAR_BIND", "127.0.0.1"),
        ("CONVERTBAR_PORT", "9090"),
    ]))
    .unwrap();
    assert_eq!(cfg.bind, bind("127.0.0.1", 9090));
}

#[test]
fn bad_bind_host_is_rejected() {
    let err = ServerConfig::from_vars(&vars(&[
        ("CONVERTBAR_AUTH_TOKEN", "abcdefghijklmnop"),
        ("CONVERTBAR_BIND", "not-an-ip"),
    ]))
    .unwrap_err();
    assert_eq!(err, ConfigError::BadBind("not-an-ip".to_string()));
}

#[test]
fn bad_port_is_rejected() {
    let err = ServerConfig::from_vars(&vars(&[
        ("CONVERTBAR_AUTH_TOKEN", "abcdefghijklmnop"),
        ("CONVERTBAR_PORT", "notaport"),
    ]))
    .unwrap_err();
    assert_eq!(err, ConfigError::BadBind("notaport".to_string()));
}

#[test]
fn browse_roots_split_on_colon() {
    let cfg = ServerConfig::from_vars(&vars(&[
        ("CONVERTBAR_AUTH_TOKEN", "abcdefghijklmnop"),
        ("CONVERTBAR_BROWSE_ROOTS", "/data:/media"),
    ]))
    .unwrap();
    assert_eq!(
        cfg.browse_roots,
        vec![String::from("/data"), String::from("/media")]
    );
}

#[test]
fn empty_browse_roots_falls_back_to_default() {
    let cfg = ServerConfig::from_vars(&vars(&[
        ("CONVERTBAR_AUTH_TOKEN", "abcdefghijklmnop"),
        ("CONVERTBAR_BROWSE_ROOTS", ""),
    ]))
    .unwrap();
    assert_eq!(cfg.browse_roots, vec![String::from("/")]);
}

#[test]
fn empty_allowed_hosts_falls_back_to_default() {
    let cfg = ServerConfig::from_vars(&vars(&[
        ("CONVERTBAR_AUTH_TOKEN", "abcdefghijklmnop"),
        ("CONVERTBAR_ALLOWED_HOSTS", ""),
    ]))
    .unwrap();
    assert_eq!(cfg.allowed_hosts, Vec::<String>::new());
}

#[test]
fn allowed_hosts_split_on_comma_only() {
    let cfg = ServerConfig::from_vars(&vars(&[
        ("CONVERTBAR_AUTH_TOKEN", "abcdefghijklmnop"),
        ("CONVERTBAR_ALLOWED_HOSTS", "foo.local,bar.local:8080"),
    ]))
    .unwrap();
    assert_eq!(
        cfg.allowed_hosts,
        vec!["foo.local".to_string(), "bar.local:8080".to_string()]
    );
}

#[test]
fn every_refusal_says_what_to_do() {
    assert!(ConfigError::MissingAuth
        .message()
        .contains("CONVERTBAR_AUTH_TOKEN or CONVERTBAR_NO_AUTH=1"));
    assert!(ConfigError::WeakToken
        .message()
        .contains("at least 16 characters long"));
    assert!(ConfigError::BadTrustedProxy("x/y".to_string())
        .message()
        .contains("x/y"));
    assert!(ConfigError::BadBind("z".to_string()).message().contains("z"));
}

#[test]
fn a_strong_token_is_long_and_varied() {
    assert!(token_is_strong("abcdefghijklmnop"));
    assert!(!token_is_strong("aaaaaaaaaaaaaaaaaaaaaaa"));
    assert!(!token_is_strong("abcdefgh"));
}

#[test]
fn addresses_are_numbers() {
    assert_eq!(parse_entry("1.2.3.4"), Some(Address::V4(0x01020304)));
    assert_eq!(parse_entry("::1"), Some(Address::V6(1)));
    assert_eq!(parse_entry("[::1]:80"), Some(Address::V6(1)));
    assert_eq!(parse_entry("1.2.3.4:80"), Some(Address::V4(0x01020304)));
    assert_eq!(parse_entry("1.2.3"), None);
    assert_eq!(parse_entry("!!!"), None);
    assert_eq!(parse_socket_address("1.2.3.4:65536"), None);
    assert_eq!(
        parse_socket_address("[2001:db8::1]:443"),
        Some(Address::V6(0x20010db8_00000000_00000000_00000001))
    );
    assert_eq!(
        to_canonical(Address::V6(0xffff_0102_0304)),
        Address::V4(0x01020304)
    );
    assert_eq!(to_canonical(Address::V6(5)), Address::V6(5));
}

#[test]
fn networks_contain_their_addresses() {
    let ten = net("10.0.0.0/8");
    assert_eq!(ten.prefix, 8);
    assert!(ten.contains(parse_entry("10.200.3.4").unwrap()));
    assert!(!ten.contains(parse_entry("11.0.0.1").unwrap()));
    assert!(!ten.contains(parse_entry("::1").unwrap()));
    let doc = net("2001:db8::/32");
    assert!(doc.contains(parse_entry("2001:db8:ffff::1").unwrap()));
    assert!(!doc.contains(parse_entry("2001:db9::1").unwrap()));
    let one = Network::host(parse_entry("172.18.0.5").unwrap());
    assert_eq!(one, net("172.18.0.5/32"));
    assert!(parse_trusted("10.0.0.0/33").is_none());
}

#[test]
fn addresses_are_read_byte_by_byte() {
    for (text, number) in [
        ("0.0.0.0", Some(0)),
        ("255.255.255.255", Some(u32::MAX)),
        ("1.2.3.256", None),
        ("01.2.3.4", None),
        ("1.2.3.04", None),
        ("1.2.3", None),
        ("1.2.3.4.5", None),
        ("1..3.4", None),
        ("1.2.3.+4", None),
        (" 1.2.3.4x", None),
        ("0x1.2.3.4", None),
        ("", None),
    ] {
        assert_eq!(parse_entry(text), number.map(Address::V4), "{text}");
    }
    for (text, range) in [
        ("10.0.0.0/8", Some((0x0a00_0000, 8))),
        ("10.1.2.3/0", Some((0x0a01_0203, 0))),
        ("010.001.002.003/08", Some((0x0a01_0203, 8))),
        ("10.0.0.0/32", Some((0x0a00_0000, 32))),
        ("10.0.0.0/33", None),
        ("10.0.0.0/008", None),
        ("10.0.0.0/", None),
        ("10.0.0/8", None),
        ("10.0.0.0/8/8", None),
        ("10.0.0.256/8", None),
    ] {
        let want = range.map(|(address, prefix)| Network {
            address: Address::V4(address),
            prefix,
        });
        assert_eq!(parse_trusted(text), want, "{text}");
    }
}
