//! Who gets past the server's guards: requests addressed to a known name, with a known token, and
//! with a body that a foreign page cannot send.

use crate::config::{auth_token, AuthMode};
use crate::net::{after_last_colon, last_colon, lemma_colon_before, parse_address, parsed_address};
use crate::paths::opt_view;
use crate::text::{all_digits, ascii_lowered, begins, chars_of, digits_from, joined3, parse_int};
use crate::text::{parse_unsigned, same, same_ignoring_ascii_case, slice_of, starts_with, text_of};
use crate::text::{occurs, split, trim, trimmed};
use crate::throttle::{asked, gate, kept_small, known_of, succeeded, ClientId, Failures, Gate};
use crate::throttle::LoginThrottle;
use vstd::prelude::*;
use vstd::string::*;
use vstd::utf8::{encode_utf8, encode_utf8_decode_utf8};

verus! {

/// The cookie that carries the token.
pub const TOKEN_COOKIE: &'static str = "convertbar_token";

/// The status of a request that is addressed to an unknown name.
pub const STATUS_MISDIRECTED: u16 = 421;

/// The status of a request without the right token.
pub const STATUS_UNAUTHORIZED: u16 = 401;

/// The status of a request with a body of the wrong kind.
pub const STATUS_UNSUPPORTED: u16 = 415;

/// `constant_time_eq::constant_time_eq`: whether two byte strings are equal.
pub assume_specification[ constant_time_eq::constant_time_eq ](a: &[u8], b: &[u8]) -> (r: bool)
    ensures
        r == (a@ == b@),
;

/// Texts with the same bytes are the same.
proof fn lemma_bytes_tell(a: Seq<char>, b: Seq<char>)
    ensures
        encode_utf8(a) == encode_utf8(b) <==> a == b,
{
    encode_utf8_decode_utf8(a);
    encode_utf8_decode_utf8(b);
}

/// Whether a token is the expected one. The time it takes does not depend on where they differ.
pub fn token_matches(candidate: &str, expected: &str) -> (r: bool)
    ensures
        r == (candidate@ == expected@),
{
    proof {
        lemma_bytes_tell(candidate@, expected@);
    }
    constant_time_eq::constant_time_eq(candidate.as_bytes(), expected.as_bytes())
}

/// Where the first closing bracket of a text stands; its length if it has none.
pub open spec fn first_bracket(s: Seq<char>) -> int
    decreases s.len(),
{
    if s.len() == 0 || s[0] == ']' {
        0
    } else {
        1 + first_bracket(s.drop_first())
    }
}

/// A host without its port: what stands in brackets, or what stands before a colon and digits.
pub open spec fn without_port(host: Seq<char>) -> Seq<char> {
    if host.len() > 0 && host[0] == '[' {
        let rest = host.skip(1);
        if first_bracket(rest) < rest.len() {
            rest.take(first_bracket(rest))
        } else {
            host
        }
    } else {
        let c = last_colon(host);
        if c >= 0 && host.skip(c + 1).len() > 0 && all_digits(host.skip(c + 1)) {
            host.take(c)
        } else {
            host
        }
    }
}

/// The first closing bracket from `from` on.
fn find_bracket(cs: &Vec<char>, from: usize) -> (r: usize)
    requires
        from <= cs.len(),
    ensures
        r == from + first_bracket(cs@.skip(from as int)),
        from <= r <= cs.len(),
{
    let mut i: usize = from;
    while i < cs.len() && cs[i] != ']'
        invariant
            from <= i <= cs.len(),
            from + first_bracket(cs@.skip(from as int)) == i + first_bracket(cs@.skip(i as int)),
        decreases cs.len() - i,
    {
        assert(cs@.skip(i as int).drop_first() =~= cs@.skip(i + 1));
        i = i + 1;
    }
    i
}

/// A host without its port.
pub fn strip_port(host: &str) -> (r: String)
    ensures
        r@ == without_port(host@),
{
    let cs: Vec<char> = chars_of(host);
    if cs.len() > 0 && cs[0] == '[' {
        let end: usize = find_bracket(&cs, 1);
        if end < cs.len() {
            assert(cs@.subrange(1, end as int) =~= host@.skip(1).take(end - 1));
            return text_of(&slice_of(&cs, 1, end));
        }
        return host.to_owned();
    }
    let c: usize = after_last_colon(&cs);
    if c > 0 && c < cs.len() && digits_from(&cs, c) {
        assert(cs@.subrange(0, c - 1) =~= host@.take(c - 1));
        text_of(&slice_of(&cs, 0, c - 1))
    } else {
        host.to_owned()
    }
}

/// Whether a name is one of the allowed ones, ports and case aside.
pub open spec fn names_host(allowed: Seq<Seq<char>>, name: Seq<char>) -> bool {
    exists|i: int|
        0 <= i < allowed.len() && ascii_lowered(without_port(#[trigger] allowed[i]))
            == ascii_lowered(name)
}

/// Whether requests may be addressed to a host: an address, `localhost`, or an allowed name. The
/// port does not matter. An address of the newer kind may also stand without brackets; all of it is
/// then the address.
pub open spec fn allows_host(host: Seq<char>, allowed: Seq<Seq<char>>) -> bool {
    let name = without_port(trim(host));
    parsed_address(trim(host)) is Some || (name.len() > 0 && (ascii_lowered(name)
        == ascii_lowered("localhost"@) || parsed_address(name) is Some || names_host(
        allowed,
        name,
    )))
}

/// An address is allowed whatever names are, with a port or without one; and what is allowed stays
/// so when names are added.
pub proof fn addresses_are_always_allowed(
    host: Seq<char>,
    allowed: Seq<Seq<char>>,
    more: Seq<Seq<char>>,
)
    ensures
        parsed_address(trim(host)) is Some ==> allows_host(host, allowed),
        parsed_address(without_port(trim(host))) is Some ==> allows_host(host, allowed),
        allows_host(host, allowed) ==> allows_host(host, allowed + more),
{
    let name = without_port(trim(host));
    if name.len() == 0 {
        assert(split(name, '.').len() == 1);
    }
    if names_host(allowed, name) {
        let i = choose|i: int|
            0 <= i < allowed.len() && ascii_lowered(without_port(#[trigger] allowed[i]))
                == ascii_lowered(name);
        assert((allowed + more)[i] == allowed[i]);
    }
}

/// Whether requests may be addressed to a host.
pub fn host_allowed(host: &str, allowed: &Vec<String>) -> (r: bool)
    ensures
        r == allows_host(host@, allowed.deep_view()),
{
    let shown: String = trimmed(host);
    if parse_address(&shown).is_some() {
        return true;
    }
    let name: String = strip_port(&shown);
    if name.as_str().is_empty() {
        return false;
    }
    if same_ignoring_ascii_case(&name, "localhost") {
        return true;
    }
    if parse_address(&name).is_some() {
        return true;
    }
    let ghost av = allowed.deep_view();
    let mut i: usize = 0;
    while i < allowed.len()
        invariant
            i <= allowed.len(),
            av == allowed.deep_view(),
            name@ == without_port(trim(host@)),
            name@.len() > 0,
            forall|j: int|
                0 <= j < i ==> ascii_lowered(without_port(#[trigger] av[j])) != ascii_lowered(
                    name@,
                ),
        decreases allowed.len() - i,
    {
        assert(av[i as int] == allowed[i as int]@);
        if same_ignoring_ascii_case(&strip_port(&allowed[i]), &name) {
            assert(ascii_lowered(without_port(av[i as int])) == ascii_lowered(name@));
            return true;
        }
        i = i + 1;
    }
    false
}

/// What is answered to a request that is addressed to an unknown name.
pub open spec fn host_refusal(host: Option<&str>, allowed: Seq<Seq<char>>) -> Option<Seq<char>> {
    let shown = match host {
        Some(h) => h@,
        None => "<none>"@,
    };
    if host matches Some(h) && allows_host(h@, allowed) {
        None
    } else {
        Some(
            "host not allowed: "@ + shown
                + " — set CONVERTBAR_ALLOWED_HOSTS to permit it"@,
        )
    }
}

/// Guards the name that a request is addressed to, in every mode: what the request is refused
/// with, nothing if it may pass.
pub fn host_guard(host: Option<&str>, allowed: &Vec<String>) -> (r: Option<String>)
    ensures
        opt_view(r) == host_refusal(host, allowed.deep_view()),
{
    let shown: &str = match host {
        Some(h) => {
            if host_allowed(h, allowed) {
                return None;
            }
            h
        },
        None => "<none>",
    };
    Some(
        joined3(
            "host not allowed: ",
            shown,
            " — set CONVERTBAR_ALLOWED_HOSTS to permit it",
        ),
    )
}

/// The methods that the server tells apart.
#[derive(Debug, Clone, Copy, PartialEq, Eq, Structural)]
pub enum Method {
    Get,
    Post,
    Put,
    Delete,
    Other,
}

/// The token in an `Authorization` header.
pub open spec fn bearer(authorization: Seq<char>) -> Option<Seq<char>> {
    if begins(authorization, "Bearer "@) {
        Some(authorization.skip("Bearer "@.len() as int))
    } else {
        None
    }
}

/// The token in an `Authorization` header.
pub fn bearer_token(authorization: &str) -> (r: Option<String>)
    ensures
        opt_view(r) == bearer(authorization@),
{
    if !starts_with(authorization, "Bearer ") {
        return None;
    }
    let cs: Vec<char> = chars_of(authorization);
    let mark: Vec<char> = chars_of("Bearer ");
    assert(cs@.subrange(mark.len() as int, cs@.len() as int) =~= authorization@.skip(
        mark@.len() as int,
    ));
    Some(text_of(&slice_of(&cs, mark.len(), cs.len())))
}

/// What a request shows to be let in: the token in its header, else the one in its cookie.
pub open spec fn shown_token(authorization: Option<&str>, cookie: Option<&str>) -> Option<Seq<char>> {
    match (authorization, cookie) {
        (Some(a), Some(c)) => match bearer(a@) {
            Some(t) => Some(t),
            None => Some(c@),
        },
        (Some(a), None) => bearer(a@),
        (None, Some(c)) => Some(c@),
        (None, None) => None,
    }
}

/// What a request shows to be let in.
pub fn credential(authorization: Option<&str>, cookie: Option<&str>) -> (r: Option<String>)
    ensures
        opt_view(r) == shown_token(authorization, cookie),
{
    match authorization {
        Some(a) => match bearer_token(a) {
            Some(t) => {
                return Some(t);
            },
            None => {},
        },
        None => {},
    }
    match cookie {
        Some(c) => Some(c.to_owned()),
        None => None,
    }
}

/// Whether a request has to show a token: one to the interface, other than that which asks for
/// the cookie, where the server asks for a token.
pub open spec fn must_show_token(auth: AuthMode, method: Method, path: Seq<char>) -> bool {
    auth is Token && begins(path, "/api"@) && !(method == Method::Post && path == "/api/login"@)
}

/// Whether a token that is shown is evaluated and right.
pub open spec fn token_passes(
    auth: AuthMode,
    throttle: LoginThrottle,
    id: ClientId,
    now: u64,
    shown: Seq<char>,
) -> bool {
    gate(throttle.policy, known_of(throttle.known@, id), now) == Gate::Allow && auth_token(auth)
        == Some(shown)
}

/// What the throttle remembers after a token was shown: the try is counted before the token is
/// looked at, and forgotten if the token was right.
pub open spec fn after_shown(
    auth: AuthMode,
    throttle: LoginThrottle,
    id: ClientId,
    now: u64,
    shown: Seq<char>,
) -> Seq<(ClientId, Failures)> {
    let counted = asked(throttle.policy, throttle.known@, id, now);
    if token_passes(auth, throttle, id, now, shown) {
        succeeded(counted, id)
    } else {
        counted
    }
}

/// Evaluates a token that is shown, if its source may try now.
fn evaluate(expected: &str, throttle: &mut LoginThrottle, id: ClientId, now: u64, shown: &str) -> (r:
    bool)
    ensures
        r == (gate(old(throttle).policy, known_of(old(throttle).known@, id), now) == Gate::Allow
            && shown@ == expected@),
        final(throttle).policy == old(throttle).policy,
        final(throttle).known@ == (if r {
            succeeded(asked(old(throttle).policy, old(throttle).known@, id, now), id)
        } else {
            asked(old(throttle).policy, old(throttle).known@, id, now)
        }),
        kept_small(old(throttle).known@) ==> kept_small(final(throttle).known@),
{
    if throttle.check(id, now) == Gate::Deny {
        return false;
    }
    if token_matches(shown, expected) {
        throttle.record_success(id);
        return true;
    }
    false
}

/// Guards the interface: whether a request may pass. A request that shows nothing is refused and
/// not counted as a try. One whose source may not try now is refused whatever it shows.
pub fn auth_guard(
    auth: &AuthMode,
    throttle: &mut LoginThrottle,
    method: Method,
    path: &str,
    shown: Option<&str>,
    id: ClientId,
    now: u64,
) -> (r: bool)
    ensures
        final(throttle).policy == old(throttle).policy,
        !must_show_token(*auth, method, path@) ==> r && final(throttle).known@ == old(
            throttle,
        ).known@,
        must_show_token(*auth, method, path@) ==> match shown {
            None => !r && final(throttle).known@ == old(throttle).known@,
            Some(t) => {
                &&& r == token_passes(*auth, *old(throttle), id, now, t@)
                &&& final(throttle).known@ == after_shown(*auth, *old(throttle), id, now, t@)
            },
        },
        kept_small(old(throttle).known@) ==> kept_small(final(throttle).known@),
{
    let expected: &String = match auth {
        AuthMode::Open => {
            return true;
        },
        AuthMode::Token(t) => t,
    };
    let login: bool = method == Method::Post && same(path, "/api/login");
    if login || !starts_with(path, "/api") {
        return true;
    }
    match shown {
        None => false,
        Some(t) => evaluate(expected, throttle, id, now, t),
    }
}

/// What a request for the cookie is answered.
#[derive(Debug, Clone, Copy, PartialEq, Eq, Structural)]
pub enum LoginAnswer {
    /// No token is asked for: nothing, and no cookie.
    NotNeeded,
    /// The token is right: the cookie.
    Welcome,
    /// The token is wrong, or the source may not try now.
    Refused,
}

/// What a request for the cookie is answered. Its tries count like those at the interface.
pub fn login(auth: &AuthMode, throttle: &mut LoginThrottle, token: &str, id: ClientId, now: u64) -> (
    r: LoginAnswer)
    ensures
        final(throttle).policy == old(throttle).policy,
        match *auth {
            AuthMode::Open => r == LoginAnswer::NotNeeded && final(throttle).known@ == old(
                throttle,
            ).known@,
            AuthMode::Token(_) => {
                &&& r == (if token_passes(*auth, *old(throttle), id, now, token@) {
                    LoginAnswer::Welcome
                } else {
                    LoginAnswer::Refused
                })
                &&& final(throttle).known@ == after_shown(*auth, *old(throttle), id, now, token@)
            },
        },
        kept_small(old(throttle).known@) ==> kept_small(final(throttle).known@),
{
    match auth {
        AuthMode::Open => LoginAnswer::NotNeeded,
        AuthMode::Token(expected) => {
            if evaluate(expected, throttle, id, now, token) {
                LoginAnswer::Welcome
            } else {
                LoginAnswer::Refused
            }
        },
    }
}

/// The length that a `Content-Length` header gives, 0 if it gives none.
pub open spec fn body_length(content_length: Option<&str>) -> int {
    match content_length {
        Some(s) => match parse_int(s@, 0, u64::MAX as int) {
            Some(n) => n,
            None => 0,
        },
        None => 0,
    }
}

/// Whether a request has to say that its body is JSON: one that writes to the interface, unless it
/// deletes and has no body.
pub open spec fn must_be_json(method: Method, path: Seq<char>, content_length: Option<&str>) -> bool {
    begins(path, "/api"@) && (method == Method::Post || method == Method::Put || (method
        == Method::Delete && body_length(content_length) != 0))
}

/// Guards against bodies that a foreign page could send: whether a request may pass.
pub fn json_content_guard(
    method: Method,
    path: &str,
    content_length: Option<&str>,
    content_type: Option<&str>,
) -> (r: bool)
    ensures
        r == (!must_be_json(method, path@, content_length) || (content_type matches Some(t)
            && begins(t@, "application/json"@))),
{
    let json: bool = match content_type {
        Some(t) => starts_with(t, "application/json"),
        None => false,
    };
    if json || !starts_with(path, "/api") {
        return true;
    }
    match method {
        Method::Post | Method::Put => false,
        Method::Delete => {
            let length: u64 = match content_length {
                Some(s) => match parse_unsigned(s, u64::MAX) {
                    Some(n) => n,
                    None => 0,
                },
                None => 0,
            };
            length == 0
        },
        Method::Get | Method::Other => true,
    }
}

/// The answer to a request that every guard let pass, or the status of the guard that did not.
#[derive(Debug, Clone, Copy, PartialEq, Eq, Structural)]
pub enum Passage {
    Pass,
    Misdirected,
    Unauthorized,
    UnsupportedMedia,
}

/// Which guard stops a request: first that of the name, then that of the token, then that of the
/// body. A later guard is not asked.
pub fn passage(host_refused: bool, authorized: bool, json_ok: bool) -> (r: Passage)
    ensures
        r == (if host_refused {
            Passage::Misdirected
        } else if !authorized {
            Passage::Unauthorized
        } else if !json_ok {
            Passage::UnsupportedMedia
        } else {
            Passage::Pass
        }),
{
    if host_refused {
        Passage::Misdirected
    } else if !authorized {
        Passage::Unauthorized
    } else if !json_ok {
        Passage::UnsupportedMedia
    } else {
        Passage::Pass
    }
}

/// While its source may not try, even the right token is refused, and nothing is remembered of it:
/// the refusal is that of a wrong token.
pub proof fn a_shut_gate_refuses_the_right_token(
    auth: AuthMode,
    throttle: LoginThrottle,
    id: ClientId,
    now: u64,
    shown: Seq<char>,
)
    requires
        gate(throttle.policy, known_of(throttle.known@, id), now) == Gate::Deny,
    ensures
        !token_passes(auth, throttle, id, now, shown),
        after_shown(auth, throttle, id, now, shown) == throttle.known@,
{
}

/// A right token clears its source: the source may try at once.
pub proof fn a_right_token_clears_its_source(
    auth: AuthMode,
    throttle: LoginThrottle,
    id: ClientId,
    now: u64,
    later: u64,
    shown: Seq<char>,
)
    requires
        kept_small(throttle.known@),
        token_passes(auth, throttle, id, now, shown),
    ensures
        gate(
            throttle.policy,
            known_of(after_shown(auth, throttle, id, now, shown), id),
            later,
        ) == Gate::Allow,
{
    crate::throttle::what_is_remembered_stays_small(throttle.policy, throttle.known@, id, now);
    crate::throttle::success_reopens_the_gate(
        throttle.policy,
        asked(throttle.policy, throttle.known@, id, now),
        id,
        later,
    );
}

/// A port does not belong to the name of a host: it is taken off a name, and off an address in
/// brackets together with them. A name without a port stays as it is.
pub proof fn ports_are_taken_off(name: Seq<char>, port: Seq<char>)
    requires
        port.len() > 0,
        all_digits(port),
    ensures
        name.len() == 0 || name[0] != '[' ==> without_port(name.push(':') + port) == name,
        !name.contains(']') ==> without_port(seq!['['] + name + seq![']', ':'] + port) == name,
        !name.contains(']') ==> without_port(seq!['['] + name + seq![']']) == name,
        !name.contains(':') && (name.len() == 0 || name[0] != '[') ==> without_port(name) == name,
{
    let whole = name.push(':') + port;
    lemma_colon_before(name, port);
    assert(whole.take(name.len() as int) =~= name);
    assert(whole.skip((name.len() + 1) as int) =~= port);
    if name.len() > 0 {
        assert(whole[0] == name[0]);
    }
    if !name.contains(']') {
        let inner = seq!['['] + name + seq![']', ':'] + port;
        let rest = inner.skip(1);
        assert(rest =~= name + (seq![']', ':'] + port));
        lemma_bracket_after(name, seq![']', ':'] + port);
        assert(rest.take(name.len() as int) =~= name);
        let bare = seq!['['] + name + seq![']'];
        assert(bare.skip(1) =~= name + seq![']']);
        lemma_bracket_after(name, seq![']']);
        assert(bare.skip(1).take(name.len() as int) =~= name);
    }
    if !name.contains(':') {
        crate::net::lemma_colon_none(name);
    }
}

/// The first bracket after a text without one.
proof fn lemma_bracket_after(name: Seq<char>, rest: Seq<char>)
    requires
        !name.contains(']'),
        rest.len() > 0,
        rest[0] == ']',
    ensures
        first_bracket(name + rest) == name.len(),
    decreases name.len(),
{
    let whole = name + rest;
    if name.len() == 0 {
        assert(whole =~= rest);
    } else {
        assert(name.contains(name[0]));
        let fewer = name.drop_first();
        assert(!fewer.contains(']')) by {
            if fewer.contains(']') {
                let i = choose|i: int| 0 <= i < fewer.len() && fewer[i] == ']';
                assert(name[i + 1] == ']');
            }
        }
        lemma_bracket_after(fewer, rest);
        assert(whole.drop_first() =~= fewer + rest);
    }
}

/// A host is allowed by its name, whatever its port and the case of its letters; a name that is
/// neither allowed nor an address nor the machine's own is refused.
pub proof fn hosts_are_allowed_by_name(
    name: Seq<char>,
    allowed: Seq<Seq<char>>,
    i: int,
)
    ensures
        0 <= i < allowed.len() && ascii_lowered(without_port(allowed[i])) == ascii_lowered(
            without_port(trim(name)),
        ) && without_port(trim(name)).len() > 0 ==> allows_host(name, allowed),
        ascii_lowered(without_port(trim(name))) == ascii_lowered("localhost"@) ==> allows_host(
            name,
            allowed,
        ),
        parsed_address(trim(name)) is None && parsed_address(without_port(trim(name))) is None
            && ascii_lowered(without_port(trim(name))) != ascii_lowered("localhost"@) && (forall|
            k: int,
        |
            0 <= k < allowed.len() ==> ascii_lowered(without_port(#[trigger] allowed[k]))
                != ascii_lowered(without_port(trim(name)))) ==> !allows_host(name, allowed),
{
    reveal_strlit("localhost");
    let n = without_port(trim(name));
    if ascii_lowered(n) == ascii_lowered("localhost"@) {
        assert(ascii_lowered(n).len() == n.len());
        assert(ascii_lowered("localhost"@).len() == 9);
    }
}

/// A request that is refused for its host is told which host that was; one that names none is refused
/// too.
pub proof fn refused_hosts_are_named(host: &str, allowed: Seq<Seq<char>>)
    ensures
        host_refusal(Some(host), allowed) is None <==> allows_host(host@, allowed),
        host_refusal(None, allowed) is Some,
        host_refusal(Some(host), allowed) matches Some(words) ==> occurs(words, host@),
{
    if let Some(words) = host_refusal(Some(host), allowed) {
        let n = "host not allowed: "@.len() as int;
        assert(words.subrange(n, n + host@.len()) =~= host@);
        assert(crate::text::occurs_at(words, host@, n));
    }
}

/// The token in a header is what follows the word for it, and no other header holds one.
pub proof fn bearer_tokens_follow_their_word(token: Seq<char>, other: Seq<char>)
    ensures
        bearer("Bearer "@ + token) == Some(token),
        bearer(other) matches Some(t) ==> other == "Bearer "@ + t,
{
    let whole = "Bearer "@ + token;
    let n = "Bearer "@.len() as int;
    assert(whole.subrange(0, n) =~= "Bearer "@);
    assert(whole.skip(n) =~= token);
    if bearer(other) is Some {
        assert(other =~= other.subrange(0, n) + other.skip(n));
    }
}

/// The token in the header goes before the one in the cookie, which counts where the header holds
/// none.
pub proof fn headers_go_before_cookies(authorization: &str, cookie: &str)
    ensures
        bearer(authorization@) is Some ==> shown_token(Some(authorization), Some(cookie)) == bearer(
            authorization@,
        ),
        bearer(authorization@) is None ==> shown_token(Some(authorization), Some(cookie)) == Some(
            cookie@,
        ),
        shown_token(None, Some(cookie)) == Some(cookie@),
        shown_token(Some(authorization), None) == bearer(authorization@),
        shown_token(None, None) is None,
{
}

/// Where the server asks for a token, every request to its interface has to show one, but for the
/// one that asks for the cookie; pages need none, and an open server asks for none.
pub proof fn the_interface_is_guarded(token: String, method: Method, rest: Seq<char>, path: Seq<char>)
    ensures
        must_show_token(AuthMode::Token(token), method, "/api"@ + rest) <==> !(method
            == Method::Post && rest == "/login"@),
        !begins(path, "/api"@) ==> !must_show_token(AuthMode::Token(token), method, path),
        !must_show_token(AuthMode::Open, method, path),
{
    reveal_strlit("/api");
    reveal_strlit("/login");
    reveal_strlit("/api/login");
    let whole = "/api"@ + rest;
    assert(whole.subrange(0, 4) =~= "/api"@);
    assert("/api/login"@ =~= "/api"@ + "/login"@);
    if whole == "/api/login"@ {
        assert(rest =~= whole.skip(4));
        assert("/login"@ =~= ("/api"@ + "/login"@).skip(4));
    }
}

/// A token passes exactly where its source may try and it is the right one; a wrong one stays counted
/// against its source, a right one does not.
pub proof fn only_the_right_token_passes(
    token: String,
    throttle: LoginThrottle,
    id: ClientId,
    now: u64,
    shown: Seq<char>,
)
    ensures
        ({
            let auth = AuthMode::Token(token);
            let open = gate(throttle.policy, known_of(throttle.known@, id), now) == Gate::Allow;
            &&& token_passes(auth, throttle, id, now, shown) <==> open && shown == token@
            &&& shown != token@ ==> after_shown(auth, throttle, id, now, shown) == asked(
                throttle.policy,
                throttle.known@,
                id,
                now,
            )
            &&& open && shown == token@ ==> after_shown(auth, throttle, id, now, shown)
                == succeeded(asked(throttle.policy, throttle.known@, id, now), id)
        }),
{
}

/// A request that writes to the interface has to say that its body is JSON; one that reads, one that
/// deletes without a body and one for a page do not.
pub proof fn writes_say_what_they_bring(path: Seq<char>, length: Option<&str>)
    ensures
        begins(path, "/api"@) ==> must_be_json(Method::Post, path, length) && must_be_json(
            Method::Put,
            path,
            length,
        ),
        !must_be_json(Method::Get, path, length),
        !must_be_json(Method::Delete, path, None),
        begins(path, "/api"@) && (length matches Some(n) && parse_int(n@, 0, u64::MAX as int)
            matches Some(k) && k > 0) ==> must_be_json(Method::Delete, path, length),
        !begins(path, "/api"@) ==> !must_be_json(Method::Post, path, length) && !must_be_json(
            Method::Put,
            path,
            length,
        ) && !must_be_json(Method::Delete, path, length),
{
}


} // verus!
