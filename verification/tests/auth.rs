use convertbar::auth::{
    auth_guard, bearer_token, credential, host_allowed, host_guard, json_content_guard, login,
    passage, strip_port, token_matches, LoginAnswer, Method, Passage, STATUS_MISDIRECTED,
    STATUS_UNAUTHORIZED, STATUS_UNSUPPORTED, TOKEN_COOKIE,
};
use convertbar::config::AuthMode;
use convertbar::net::parse_entry;
use convertbar::throttle::{client_id, LoginThrottle, ThrottlePolicy};

const MILLI: u64 = 1_000_000;
const SECOND: u64 = 1_000_000_000;

#[test]
fn ipv4_literal_with_port_is_always_allowed() {
    assert!(host_allowed("192.168.1.5:8080", &vec![]));
}

#[test]
fn bracketed_ipv6_literal_with_port_is_always_allowed() {
    assert!(host_allowed("[::1]:8080", &vec![]));
}

#[test]
fn bracketed_ipv6_literal_without_port_is_always_allowed() {
    assert!(host_allowed("[::1]", &vec![]));
}

#[test]
fn localhost_is_allowed_with_any_port_case_insensitively() {
    assert!(host_allowed("localhost:1234", &vec![]));
    assert!(host_allowed("LocalHost", &vec![]));
}

#[test]
fn configured_host_is_allowed_only_when_listed() {
    assert!(!host_allowed("nas.local", &vec![]));
    assert!(host_allowed("nas.local", &vec!["nas.local".to_string()]));
}

#[test]
fn configured_host_match_is_case_insensitive_and_port_stripped_on_both_sides() {
    assert!(host_allowed(
        "NAS.Local:9999",
        &vec!["nas.local:8080".to_string()]
    ));
}

#[test]
fn unlisted_host_is_rejected() {
    assert!(!host_allowed("evil.example.com", &vec![]));
    assert!(!host_allowed(
        "evil.example.com",
        &vec!["nas.local".to_string()]
    ));
}

#[test]
fn missing_or_empty_host_is_rejected() {
    assert!(!host_allowed("", &vec![]));
    assert!(!host_allowed("   ", &vec![]));
}

#[test]
fn equal_tokens_match() {
    assert!(token_matches("secret", "secret"));
}

#[test]
fn different_tokens_of_equal_length_do_not_match() {
    assert!(!token_matches("secreu", "secret"));
}

#[test]
fn tokens_of_different_length_do_not_match() {
    assert!(!token_matches("secret-but-longer", "secret"));
}

/// The three guards, in the order in which a request meets them.
struct Server {
    auth: AuthMode,
    allowed_hosts: Vec<String>,
    throttle: LoginThrottle,
    peer: &'static str,
}

impl Server {
    fn new(auth: AuthMode, allowed_hosts: Vec<String>) -> Server {
        Server {
            auth,
            allowed_hosts,
            throttle: LoginThrottle::new(ThrottlePolicy {
                base: 0,
                ..ThrottlePolicy::default()
            }),
            peer: "10.0.0.1",
        }
    }

    fn token(token: &str) -> Server {
        Server::new(AuthMode::Token(token.to_string()), vec![])
    }

    fn open() -> Server {
        Server::new(AuthMode::Open, vec![])
    }

    fn throttled(token: &str, base: u64) -> Server {
        let mut server = Server::token(token);
        server.throttle = LoginThrottle::new(ThrottlePolicy {
            base,
            ..ThrottlePolicy::default()
        });
        server
    }

    fn gated(token: &str) -> Server {
        let mut server = Server::token(token);
        server.throttle = LoginThrottle::new(ThrottlePolicy {
            free: 0,
            base: 3600 * SECOND,
            ..ThrottlePolicy::default()
        });
        server
    }

    fn send(&mut self, method: Method, path: &str, headers: &[(&str, &str)]) -> u16 {
        let header = |name: &str| {
            headers
                .iter()
                .find(|(n, _)| *n == name)
                .map(|(_, value)| *value)
        };
        let host_refused = host_guard(header("Host"), &self.allowed_hosts).is_some();
        if host_refused {
            return status(passage(true, false, false));
        }
        let cookie = header("Cookie").and_then(|line| {
            line.strip_prefix(TOKEN_COOKIE)
                .and_then(|rest| rest.strip_prefix("="))
        });
        let shown = credential(header("Authorization"), cookie);
        let id = client_id(parse_entry(self.peer), &vec![], &vec![]);
        let authorized = auth_guard(
            &self.auth,
            &mut self.throttle,
            method,
            path,
            shown.as_deref(),
            id,
            SECOND,
        );
        let json_ok = json_content_guard(
            method,
            path,
            header("Content-Length"),
            header("Content-Type"),
        );
        status(passage(false, authorized, json_ok))
    }
}

fn status(passage: Passage) -> u16 {
    match passage {
        Passage::Pass => 200,
        Passage::Misdirected => STATUS_MISDIRECTED,
        Passage::Unauthorized => STATUS_UNAUTHORIZED,
        Passage::UnsupportedMedia => STATUS_UNSUPPORTED,
    }
}

const LOCAL: (&str, &str) = ("Host", "localhost");

#[test]
fn a_request_without_a_credential_is_unauthorized() {
    assert_eq!(
        Server::token("secret").send(Method::Get, "/api/queue", &[LOCAL]),
        401
    );
}

#[test]
fn fs_list_requires_auth_in_token_mode() {
    assert_eq!(
        Server::token("secret").send(Method::Get, "/api/fs/list", &[LOCAL]),
        401
    );
}

#[test]
fn events_requires_auth_in_token_mode() {
    assert_eq!(
        Server::token("secret").send(Method::Get, "/api/events", &[LOCAL]),
        401
    );
}

#[test]
fn token_mode_bad_bearer_is_unauthorized() {
    assert_eq!(
        Server::token("secret").send(
            Method::Get,
            "/api/queue",
            &[LOCAL, ("Authorization", "Bearer wrong")]
        ),
        401
    );
}

#[test]
fn token_mode_good_bearer_is_authorized() {
    assert_eq!(
        Server::token("secret").send(
            Method::Get,
            "/api/queue",
            &[LOCAL, ("Authorization", "Bearer secret")]
        ),
        200
    );
}

#[test]
fn a_login_with_a_wrong_token_is_refused() {
    let mut server = Server::token("secret");
    assert_eq!(
        server.send(
            Method::Post,
            "/api/login",
            &[LOCAL, ("Content-Type", "application/json")]
        ),
        200,
        "the login itself needs no credential"
    );
    let id = client_id(parse_entry("10.0.0.1"), &vec![], &vec![]);
    assert_eq!(
        login(&server.auth, &mut server.throttle, "wrong", id, 0),
        LoginAnswer::Refused
    );
}

#[test]
fn a_login_with_the_right_token_is_welcome() {
    let mut server = Server::token("secret");
    let id = client_id(parse_entry("10.0.0.1"), &vec![], &vec![]);
    assert_eq!(
        login(&server.auth, &mut server.throttle, "secret", id, 0),
        LoginAnswer::Welcome
    );
    assert_eq!(TOKEN_COOKIE, "convertbar_token");
}

#[test]
fn an_open_server_needs_no_login() {
    let mut server = Server::open();
    let id = client_id(None, &vec![], &vec![]);
    for token in ["", "anything"] {
        assert_eq!(
            login(&server.auth, &mut server.throttle, token, id, 0),
            LoginAnswer::NotNeeded
        );
    }
    assert_eq!(server.throttle.len(), 0);
}

#[test]
fn a_login_is_throttled_like_every_other_try() {
    let mut server = Server::gated("abcdefghijklmnop");
    let id = client_id(parse_entry("10.0.0.1"), &vec![], &vec![]);
    assert_eq!(
        login(&server.auth, &mut server.throttle, "wrong", id, 0),
        LoginAnswer::Refused
    );
    assert_eq!(
        login(&server.auth, &mut server.throttle, "abcdefghijklmnop", id, 0),
        LoginAnswer::Refused,
        "a shut gate refuses the right token too"
    );
    assert_eq!(
        login(
            &server.auth,
            &mut server.throttle,
            "abcdefghijklmnop",
            id,
            30 * SECOND
        ),
        LoginAnswer::Welcome
    );
    assert_eq!(server.throttle.len(), 0);
}

#[test]
fn cookie_authenticated_request_is_authorized() {
    assert_eq!(
        Server::token("secret").send(
            Method::Get,
            "/api/queue",
            &[LOCAL, ("Cookie", "convertbar_token=secret")]
        ),
        200
    );
}

#[test]
fn cookie_authenticated_sse_is_authorized() {
    assert_eq!(
        Server::token("secret").send(
            Method::Get,
            "/api/events",
            &[LOCAL, ("Cookie", "convertbar_token=secret")]
        ),
        200
    );
}

#[test]
fn host_guard_runs_before_auth_guard() {
    assert_eq!(
        Server::token("secret").send(
            Method::Get,
            "/api/queue",
            &[("Host", "evil.example.com")]
        ),
        421
    );
    assert_eq!(passage(true, false, false), Passage::Misdirected);
    assert_eq!(passage(false, false, false), Passage::Unauthorized);
    assert_eq!(passage(false, true, false), Passage::UnsupportedMedia);
    assert_eq!(passage(false, true, true), Passage::Pass);
}

#[test]
fn host_rejection_body_names_the_host_and_the_env_var() {
    let message = host_guard(Some("nas.local"), &vec![]).unwrap();
    assert!(
        message.contains("nas.local"),
        "message must name the rejected host: {message}"
    );
    assert!(
        message.contains("CONVERTBAR_ALLOWED_HOSTS"),
        "message must point at the fix: {message}"
    );
}

#[test]
fn configured_allowed_host_is_wired_through_to_the_guard() {
    let mut server = Server::new(AuthMode::Open, vec!["nas.local".to_string()]);
    assert_eq!(
        server.send(Method::Get, "/api/queue", &[("Host", "nas.local:8080")]),
        200
    );
    assert_eq!(
        server.send(Method::Get, "/api/queue", &[("Host", "other.local")]),
        421
    );
}

#[test]
fn open_mode_no_credential_is_ok_but_bad_host_is_misdirected() {
    assert_eq!(
        Server::open().send(Method::Get, "/api/queue", &[LOCAL]),
        200
    );
    assert_eq!(
        Server::open().send(Method::Get, "/api/queue", &[("Host", "evil.example.com")]),
        421
    );
}

#[test]
fn post_without_json_content_type_is_unsupported_media_type() {
    assert_eq!(
        Server::open().send(Method::Post, "/api/queue/files", &[LOCAL]),
        415
    );
    assert_eq!(
        Server::open().send(
            Method::Post,
            "/api/queue/files",
            &[LOCAL, ("Content-Type", "application/json; charset=utf-8")]
        ),
        200
    );
}

#[test]
fn delete_with_no_body_is_exempt_from_the_content_type_guard() {
    assert_eq!(
        Server::open().send(Method::Delete, "/api/queue", &[LOCAL]),
        200
    );
}

#[test]
fn delete_with_a_body_still_requires_the_json_content_type() {
    assert_eq!(
        Server::open().send(
            Method::Delete,
            "/api/queue/jobs/some-id",
            &[LOCAL, ("Content-Length", "2")]
        ),
        415
    );
}

#[test]
fn pages_are_reachable_without_credentials() {
    assert_ne!(
        Server::token("secret").send(Method::Get, "/", &[LOCAL]),
        401
    );
}

#[test]
fn missing_host_header_is_misdirected() {
    assert_eq!(Server::open().send(Method::Get, "/api/queue", &[]), 421);
}

#[test]
fn uncredentialed_requests_are_never_throttled() {
    let mut server = Server::throttled("abcdefghijklmnop", 80 * MILLI);
    for _ in 0..12 {
        assert_eq!(server.send(Method::Get, "/api/queue", &[LOCAL]), 401);
    }
    assert_eq!(
        server.send(
            Method::Get,
            "/api/queue",
            &[LOCAL, ("Authorization", "Bearer abcdefghijklmnop")]
        ),
        200
    );
}

#[test]
fn a_correct_token_succeeds_on_a_clean_bucket_after_many_prior_attempts() {
    let mut server = Server::throttled("abcdefghijklmnop", 0);
    for _ in 0..40 {
        assert_eq!(
            server.send(
                Method::Get,
                "/api/queue",
                &[LOCAL, ("Authorization", "Bearer wrong")]
            ),
            401
        );
    }
    assert_eq!(
        server.send(
            Method::Get,
            "/api/queue",
            &[LOCAL, ("Authorization", "Bearer abcdefghijklmnop")]
        ),
        200
    );
}

#[test]
fn a_denied_request_is_not_evaluated_so_even_the_correct_token_is_refused() {
    let mut server = Server::gated("abcdefghijklmnop");
    assert_eq!(
        server.send(
            Method::Get,
            "/api/queue",
            &[LOCAL, ("Authorization", "Bearer wrong")]
        ),
        401
    );
    assert_eq!(
        server.send(
            Method::Get,
            "/api/queue",
            &[LOCAL, ("Authorization", "Bearer abcdefghijklmnop")]
        ),
        401,
        "an open gate: the credential was still being evaluated"
    );
}

#[test]
fn a_denied_cookie_request_is_not_evaluated_so_even_the_correct_token_is_refused() {
    let mut server = Server::gated("abcdefghijklmnop");
    assert_eq!(
        server.send(
            Method::Get,
            "/api/queue",
            &[LOCAL, ("Cookie", "convertbar_token=wrong")]
        ),
        401
    );
    assert_eq!(
        server.send(
            Method::Get,
            "/api/queue",
            &[LOCAL, ("Cookie", "convertbar_token=abcdefghijklmnop")]
        ),
        401,
        "an open gate: the cookie credential was still being evaluated"
    );
}

#[test]
fn uncredentialed_requests_never_close_the_gate() {
    let mut server = Server::gated("abcdefghijklmnop");
    for _ in 0..25 {
        assert_eq!(server.send(Method::Get, "/api/queue", &[LOCAL]), 401);
    }
    assert_eq!(
        server.send(
            Method::Get,
            "/api/queue",
            &[LOCAL, ("Authorization", "Bearer abcdefghijklmnop")]
        ),
        200
    );
}

#[test]
fn a_successful_credential_reopens_the_gate_for_that_source() {
    let mut server = Server::gated("abcdefghijklmnop");
    let right = [LOCAL, ("Authorization", "Bearer abcdefghijklmnop")];
    assert_eq!(server.send(Method::Get, "/api/queue", &right), 200);
    assert_eq!(
        server.send(Method::Get, "/api/queue", &right),
        200,
        "no gate reopened for the source that just succeeded"
    );
    server.peer = "10.0.0.2";
    assert_eq!(server.send(Method::Get, "/api/queue", &right), 200);
}

#[test]
fn a_header_goes_before_a_cookie() {
    assert_eq!(bearer_token("Bearer abc"), Some("abc".to_string()));
    assert_eq!(bearer_token("bearer abc"), None);
    assert_eq!(
        credential(Some("Bearer a"), Some("b")),
        Some("a".to_string())
    );
    assert_eq!(
        credential(Some("Basic a"), Some("b")),
        Some("b".to_string())
    );
    assert_eq!(credential(None, None), None);
}

#[test]
fn a_port_is_taken_off_a_host() {
    assert_eq!(strip_port("nas.local:80"), "nas.local");
    assert_eq!(strip_port("nas.local"), "nas.local");
    assert_eq!(strip_port("[::1]:80"), "::1");
}

#[test]
fn a_newer_address_without_brackets_is_always_allowed() {
    assert!(host_allowed("2001:db8::1", &vec![]));
    assert!(host_allowed("::1", &vec![]));
    assert!(host_allowed(" fe80::8080 ", &vec![]));
    assert!(!host_allowed("2001:db8::zz", &vec![]));
}
