//! The server's configuration, read from environment variables.

use crate::net::{parse_address, parse_trusted, parsed_address, trusted_range};
use crate::net::{Address, Network};
use crate::text::{chars_of, joined2, joined3, parse_int, parse_unsigned, same, split, split_on};
use crate::throttle::{all_well_formed, entries_of, split_entries};
use vstd::prelude::*;
use vstd::string::*;

verus! {

/// Who may use the server.
#[derive(Debug, Clone, PartialEq, Eq)]
pub enum AuthMode {
    /// Whoever knows the token.
    Token(String),
    /// Everyone.
    Open,
}

/// The token that a mode asks for, if it asks for one.
pub open spec fn auth_token(auth: AuthMode) -> Option<Seq<char>> {
    match auth {
        AuthMode::Token(t) => Some(t@),
        AuthMode::Open => None,
    }
}

/// Why the server does not start.
#[derive(Debug, Clone, PartialEq, Eq)]
pub enum ConfigError {
    /// There is neither a token nor the word that none is wanted.
    MissingAuth,
    /// The token is too weak.
    WeakToken,
    /// What was given as a trusted proxy is no address and no range.
    BadTrustedProxy(String),
    /// What was given as an address or a port is none.
    BadBind(String),
}

/// Why the server does not start, by its texts.
pub enum ErrorView {
    MissingAuth,
    WeakToken,
    BadTrustedProxy(Seq<char>),
    BadBind(Seq<char>),
}

impl View for ConfigError {
    type V = ErrorView;

    open spec fn view(&self) -> ErrorView {
        match self {
            ConfigError::MissingAuth => ErrorView::MissingAuth,
            ConfigError::WeakToken => ErrorView::WeakToken,
            ConfigError::BadTrustedProxy(s) => ErrorView::BadTrustedProxy(s@),
            ConfigError::BadBind(s) => ErrorView::BadBind(s@),
        }
    }
}

/// Whether a token is long and varied enough: sixteen characters, eight different ones.
pub open spec fn strong(token: Seq<char>) -> bool {
    token.len() >= 16 && token.to_set().len() >= 8
}

/// The different characters of a text, each once.
fn different_chars(cs: &Vec<char>) -> (out: Vec<char>)
    ensures
        out@.no_duplicates(),
        out@.to_set() == cs@.to_set(),
{
    let mut out: Vec<char> = Vec::new();
    let mut i: usize = 0;
    assert(out@.to_set() =~= cs@.take(0).to_set());
    while i < cs.len()
        invariant
            i <= cs.len(),
            out@.no_duplicates(),
            out@.to_set() == cs@.take(i as int).to_set(),
        decreases cs.len() - i,
    {
        let c: char = cs[i];
        let mut seen: bool = false;
        let mut k: usize = 0;
        while k < out.len()
            invariant
                k <= out.len(),
                seen == exists|j: int| 0 <= j < k && out@[j] == c,
            decreases out.len() - k,
        {
            if out[k] == c {
                seen = true;
            }
            k = k + 1;
        }
        let ghost before = out@;
        if !seen {
            out.push(c);
        }
        assert(cs@.take(i + 1) =~= cs@.take(i as int).push(c));
        assert(out@.to_set() =~= cs@.take(i + 1).to_set()) by {
            assert forall|x: char| out@.to_set().contains(x) == cs@.take(i + 1).to_set().contains(
                x,
            ) by {
                let old_cs = cs@.take(i as int);
                let new_cs = cs@.take(i + 1);
                if out@.contains(x) {
                    let j = choose|j: int| 0 <= j < out@.len() && out@[j] == x;
                    if j < before.len() {
                        assert(before[j] == x);
                        assert(before.to_set().contains(x));
                        assert(old_cs.contains(x));
                        let m = choose|m: int| 0 <= m < old_cs.len() && old_cs[m] == x;
                        assert(new_cs[m] == x);
                    } else {
                        assert(new_cs[i as int] == x);
                    }
                }
                if new_cs.contains(x) {
                    let m = choose|m: int| 0 <= m < new_cs.len() && new_cs[m] == x;
                    if m < i {
                        assert(old_cs[m] == x);
                        assert(old_cs.to_set().contains(x));
                        assert(before.contains(x));
                        let j = choose|j: int| 0 <= j < before.len() && before[j] == x;
                        assert(out@[j] == x);
                    } else {
                        if seen {
                            let j = choose|j: int| 0 <= j < before.len() && before[j] == c;
                            assert(out@[j] == x);
                        } else {
                            assert(out@[before.len() as int] == x);
                        }
                    }
                }
            }
        }
        i = i + 1;
    }
    assert(cs@.take(i as int) =~= cs@);
    out
}

/// Whether a token is long and varied enough.
pub fn token_is_strong(token: &str) -> (r: bool)
    ensures
        r == strong(token@),
{
    let cs: Vec<char> = chars_of(token);
    let different: Vec<char> = different_chars(&cs);
    proof {
        different@.unique_seq_to_set();
    }
    cs.len() >= 16 && different.len() >= 8
}

/// An address and a port to listen on.
#[derive(Debug, Clone, Copy, PartialEq, Eq, Structural)]
pub struct Bind {
    pub address: Address,
    pub port: u16,
}

/// The server's configuration.
#[derive(Debug, Clone)]
pub struct ServerConfig {
    pub bind: Bind,
    pub auth: AuthMode,
    /// The names, besides `localhost` and addresses, that requests may be addressed to.
    pub allowed_hosts: Vec<String>,
    /// The folders that may be browsed.
    pub browse_roots: Vec<String>,
    /// The proxies that are trusted to say for whom they speak.
    pub trusted_proxies: Vec<Network>,
}

/// The value of a variable. Of a variable that is there twice the last value counts.
pub open spec fn var(vars: Seq<(Seq<char>, Seq<char>)>, name: Seq<char>) -> Option<Seq<char>>
    decreases vars.len(),
{
    if vars.len() == 0 {
        None
    } else if vars.last().0 == name {
        Some(vars.last().1)
    } else {
        var(vars.drop_last(), name)
    }
}

/// The value of a variable.
fn lookup<'a>(vars: &'a Vec<(String, String)>, name: &str) -> (r: Option<&'a String>)
    ensures
        match r {
            Some(s) => var(vars.deep_view(), name@) == Some(s@),
            None => var(vars.deep_view(), name@) is None,
        },
{
    let ghost all = vars.deep_view();
    let mut i: usize = vars.len();
    assert(all.take(i as int) =~= all);
    while i > 0
        invariant
            i <= vars.len() == all.len(),
            all == vars.deep_view(),
            var(all, name@) == var(all.take(i as int), name@),
        decreases i,
    {
        assert(all.take(i as int).drop_last() =~= all.take(i - 1));
        assert(all[i - 1] == (vars@[i - 1].0@, vars@[i - 1].1@));
        if same(&vars[i - 1].0, name) {
            return Some(&vars[i - 1].1);
        }
        i = i - 1;
    }
    None
}

/// The value of a variable, nothing if it is empty.
pub open spec fn filled(vars: Seq<(Seq<char>, Seq<char>)>, name: Seq<char>) -> Option<Seq<char>> {
    match var(vars, name) {
        Some(v) => if v.len() > 0 {
            Some(v)
        } else {
            None
        },
        None => None,
    }
}

/// The value of a variable, or what it is by default.
pub open spec fn var_or(
    vars: Seq<(Seq<char>, Seq<char>)>,
    name: Seq<char>,
    default: Seq<char>,
) -> Seq<char> {
    match var(vars, name) {
        Some(v) => v,
        None => default,
    }
}

/// What is wrong with the variables that decide who may use the server.
pub open spec fn auth_error(vars: Seq<(Seq<char>, Seq<char>)>) -> Option<ErrorView> {
    match filled(vars, "CONVERTBAR_AUTH_TOKEN"@) {
        Some(token) => if strong(token) {
            None
        } else {
            Some(ErrorView::WeakToken)
        },
        None => if var(vars, "CONVERTBAR_NO_AUTH"@) == Some("1"@) {
            None
        } else {
            Some(ErrorView::MissingAuth)
        },
    }
}

/// What is wrong with the address and the port.
pub open spec fn bind_error(vars: Seq<(Seq<char>, Seq<char>)>) -> Option<ErrorView> {
    let host = var_or(vars, "CONVERTBAR_BIND"@, "0.0.0.0"@);
    let port = var_or(vars, "CONVERTBAR_PORT"@, "8080"@);
    if parsed_address(host) is None {
        Some(ErrorView::BadBind(host))
    } else if parse_int(port, 0, 65535) is None {
        Some(ErrorView::BadBind(port))
    } else {
        None
    }
}

/// The entries that name trusted proxies.
pub open spec fn proxy_entries(vars: Seq<(Seq<char>, Seq<char>)>) -> Seq<Seq<char>> {
    match filled(vars, "CONVERTBAR_TRUSTED_PROXIES"@) {
        Some(raw) => entries_of(raw),
        None => Seq::empty(),
    }
}

/// The first entry from `from` on that is no address and no range.
pub open spec fn bad_entry(entries: Seq<Seq<char>>, from: int) -> Option<Seq<char>>
    decreases entries.len() - from,
{
    if from < 0 || from >= entries.len() {
        None
    } else if trusted_range(entries[from]) is None {
        Some(entries[from])
    } else {
        bad_entry(entries, from + 1)
    }
}

/// Why the server does not start with the given variables, if it does not: first who may use it,
/// then where it listens, then whom it trusts.
pub open spec fn config_error(vars: Seq<(Seq<char>, Seq<char>)>) -> Option<ErrorView> {
    if auth_error(vars) is Some {
        auth_error(vars)
    } else if bind_error(vars) is Some {
        bind_error(vars)
    } else {
        match bad_entry(proxy_entries(vars), 0) {
            Some(e) => Some(ErrorView::BadTrustedProxy(e)),
            None => None,
        }
    }
}

/// The pieces of a variable, or what they are by default.
pub open spec fn pieces_or(
    vars: Seq<(Seq<char>, Seq<char>)>,
    name: Seq<char>,
    sep: char,
    default: Seq<Seq<char>>,
) -> Seq<Seq<char>> {
    match filled(vars, name) {
        Some(v) => split(v, sep),
        None => default,
    }
}

/// Whether a configuration is what the given variables say.
pub open spec fn configured(vars: Seq<(Seq<char>, Seq<char>)>, config: ServerConfig) -> bool {
    &&& auth_token(config.auth) == filled(vars, "CONVERTBAR_AUTH_TOKEN"@)
    &&& parsed_address(var_or(vars, "CONVERTBAR_BIND"@, "0.0.0.0"@)) == Some(config.bind.address)
    &&& parse_int(var_or(vars, "CONVERTBAR_PORT"@, "8080"@), 0, 65535) == Some(
        config.bind.port as int,
    )
    &&& config.allowed_hosts.deep_view() == pieces_or(
        vars,
        "CONVERTBAR_ALLOWED_HOSTS"@,
        ',',
        Seq::empty(),
    )
    &&& config.browse_roots.deep_view() == pieces_or(
        vars,
        "CONVERTBAR_BROWSE_ROOTS"@,
        ':',
        seq!["/"@],
    )
    &&& config.trusted_proxies@.len() == proxy_entries(vars).len()
    &&& forall|i: int|
        0 <= i < proxy_entries(vars).len() ==> trusted_range(#[trigger] proxy_entries(vars)[i])
            == Some(config.trusted_proxies@[i])
    &&& all_well_formed(config.trusted_proxies@)
}

/// Reads who may use the server.
fn read_auth(vars: &Vec<(String, String)>) -> (r: Result<AuthMode, ConfigError>)
    ensures
        match r {
            Ok(auth) => auth_error(vars.deep_view()) is None && auth_token(auth) == filled(
                vars.deep_view(),
                "CONVERTBAR_AUTH_TOKEN"@,
            ),
            Err(e) => auth_error(vars.deep_view()) == Some(e@),
        },
{
    match lookup(vars, "CONVERTBAR_AUTH_TOKEN") {
        Some(token) => {
            if !token.as_str().is_empty() {
                if !token_is_strong(token) {
                    return Err(ConfigError::WeakToken);
                }
                return Ok(AuthMode::Token(token.clone()));
            }
        },
        None => {},
    }
    match lookup(vars, "CONVERTBAR_NO_AUTH") {
        Some(v) => if same(v, "1") {
            Ok(AuthMode::Open)
        } else {
            Err(ConfigError::MissingAuth)
        },
        None => Err(ConfigError::MissingAuth),
    }
}

/// Reads where the server listens.
fn read_bind(vars: &Vec<(String, String)>) -> (r: Result<Bind, ConfigError>)
    ensures
        match r {
            Ok(b) => bind_error(vars.deep_view()) is None && parsed_address(
                var_or(vars.deep_view(), "CONVERTBAR_BIND"@, "0.0.0.0"@),
            ) == Some(b.address) && parse_int(
                var_or(vars.deep_view(), "CONVERTBAR_PORT"@, "8080"@),
                0,
                65535,
            ) == Some(b.port as int),
            Err(e) => bind_error(vars.deep_view()) == Some(e@),
        },
{
    let host: &str = match lookup(vars, "CONVERTBAR_BIND") {
        Some(v) => v.as_str(),
        None => "0.0.0.0",
    };
    let address: Address = match parse_address(host) {
        Some(a) => a,
        None => {
            return Err(ConfigError::BadBind(host.to_owned()));
        },
    };
    let port_text: &str = match lookup(vars, "CONVERTBAR_PORT") {
        Some(v) => v.as_str(),
        None => "8080",
    };
    match parse_unsigned(port_text, 65535) {
        Some(p) => Ok(Bind { address, port: p as u16 }),
        None => Err(ConfigError::BadBind(port_text.to_owned())),
    }
}

/// Reads whom the server trusts.
fn read_proxies(vars: &Vec<(String, String)>) -> (r: Result<Vec<Network>, ConfigError>)
    ensures
        ({
            let entries = proxy_entries(vars.deep_view());
            match r {
                Ok(nets) => {
                    &&& bad_entry(entries, 0) is None
                    &&& nets@.len() == entries.len()
                    &&& forall|i: int|
                        0 <= i < entries.len() ==> trusted_range(#[trigger] entries[i]) == Some(
                            nets@[i],
                        )
                    &&& all_well_formed(nets@)
                },
                Err(e) => bad_entry(entries, 0) matches Some(x) && e@ == ErrorView::BadTrustedProxy(
                    x,
                ),
            }
        }),
{
    let ghost entries = proxy_entries(vars.deep_view());
    let listed: Vec<String> = match lookup(vars, "CONVERTBAR_TRUSTED_PROXIES") {
        Some(raw) => if raw.as_str().is_empty() {
            Vec::new()
        } else {
            split_entries(raw)
        },
        None => Vec::new(),
    };
    assert(listed.deep_view() =~= entries);
    let mut nets: Vec<Network> = Vec::new();
    let mut i: usize = 0;
    while i < listed.len()
        invariant
            i <= listed.len(),
            listed.deep_view() == entries,
            entries.len() == listed.len(),
            entries == proxy_entries(vars.deep_view()),
            bad_entry(entries, 0) == bad_entry(entries, i as int),
            nets.len() == i,
            forall|k: int|
                0 <= k < i ==> trusted_range(#[trigger] entries[k]) == Some(nets@[k]),
            all_well_formed(nets@),
        decreases listed.len() - i,
    {
        assert(entries[i as int] == listed[i as int]@);
        match parse_trusted(&listed[i]) {
            Some(net) => {
                nets.push(net);
            },
            None => {
                return Err(ConfigError::BadTrustedProxy(listed[i].clone()));
            },
        }
        i = i + 1;
    }
    Ok(nets)
}

impl ServerConfig {
    /// Reads the configuration from variables, given by name and value.
    pub fn from_vars(vars: &Vec<(String, String)>) -> (r: Result<Self, ConfigError>)
        ensures
            match r {
                Ok(config) => config_error(vars.deep_view()) is None && configured(
                    vars.deep_view(),
                    config,
                ),
                Err(e) => config_error(vars.deep_view()) == Some(e@),
            },
    {
        let auth: AuthMode = match read_auth(vars) {
            Ok(a) => a,
            Err(e) => {
                return Err(e);
            },
        };
        let bind: Bind = match read_bind(vars) {
            Ok(b) => b,
            Err(e) => {
                return Err(e);
            },
        };
        let allowed_hosts: Vec<String> = match lookup(vars, "CONVERTBAR_ALLOWED_HOSTS") {
            Some(v) => if v.as_str().is_empty() {
                Vec::new()
            } else {
                split_on(v, ',')
            },
            None => Vec::new(),
        };
        assert(allowed_hosts.deep_view() =~= pieces_or(
            vars.deep_view(),
            "CONVERTBAR_ALLOWED_HOSTS"@,
            ',',
            Seq::empty(),
        ));
        let browse_roots: Vec<String> = match lookup(vars, "CONVERTBAR_BROWSE_ROOTS") {
            Some(v) => if v.as_str().is_empty() {
                vec!["/".to_owned()]
            } else {
                split_on(v, ':')
            },
            None => vec!["/".to_owned()],
        };
        assert(browse_roots.deep_view() =~= pieces_or(
            vars.deep_view(),
            "CONVERTBAR_BROWSE_ROOTS"@,
            ':',
            seq!["/"@],
        ));
        let trusted_proxies: Vec<Network> = match read_proxies(vars) {
            Ok(p) => p,
            Err(e) => {
                return Err(e);
            },
        };
        Ok(ServerConfig { bind, auth, allowed_hosts, browse_roots, trusted_proxies })
    }
}

impl ConfigError {
    /// What is printed when the server does not start.
    pub fn message(&self) -> (r: String)
        ensures
            r@ == (match self@ {
                ErrorView::MissingAuth =>
                    "convertbar-server: set CONVERTBAR_AUTH_TOKEN or CONVERTBAR_NO_AUTH=1 (see docs)"@,
                ErrorView::WeakToken =>
                    "convertbar-server: CONVERTBAR_AUTH_TOKEN is too weak — it must be at least 16 characters long and use at least 8 distinct characters.\nGenerate one with:  openssl rand -base64 24"@,
                ErrorView::BadTrustedProxy(entry) =>
                    "convertbar-server: invalid CONVERTBAR_TRUSTED_PROXIES entry: "@ + entry
                        + " (expected an IP address or CIDR range, e.g. 172.18.0.5 or 10.0.0.0/8)"@,
                ErrorView::BadBind(value) =>
                    "convertbar-server: invalid bind address or port: "@ + value,
            }),
    {
        match self {
            ConfigError::MissingAuth => {
                "convertbar-server: set CONVERTBAR_AUTH_TOKEN or CONVERTBAR_NO_AUTH=1 (see docs)"
                    .to_owned()
            },
            ConfigError::WeakToken => {
                "convertbar-server: CONVERTBAR_AUTH_TOKEN is too weak — it must be at least 16 characters long and use at least 8 distinct characters.\nGenerate one with:  openssl rand -base64 24"
                    .to_owned()
            },
            ConfigError::BadTrustedProxy(entry) => joined3(
                "convertbar-server: invalid CONVERTBAR_TRUSTED_PROXIES entry: ",
                entry,
                " (expected an IP address or CIDR range, e.g. 172.18.0.5 or 10.0.0.0/8)",
            ),
            ConfigError::BadBind(value) => joined2(
                "convertbar-server: invalid bind address or port: ",
                value,
            ),
        }
    }
}

/// The server never runs without a decision on who may use it: with no token and no word that none
/// is wanted it does not start, and a token that is too weak is refused whatever else is said.
pub proof fn no_start_without_an_auth_decision(vars: Seq<(Seq<char>, Seq<char>)>)
    ensures
        filled(vars, "CONVERTBAR_AUTH_TOKEN"@) is None && var(vars, "CONVERTBAR_NO_AUTH"@) != Some(
            "1"@,
        ) ==> config_error(vars) == Some(ErrorView::MissingAuth),
        filled(vars, "CONVERTBAR_AUTH_TOKEN"@) matches Some(t) && !strong(t) ==> config_error(vars)
            == Some(ErrorView::WeakToken),
{
}

/// Of a variable that is set twice the last value counts, other variables do not matter, and one
/// that is set to nothing counts as not set.
pub proof fn the_last_value_counts(
    vars: Seq<(Seq<char>, Seq<char>)>,
    name: Seq<char>,
    other: Seq<char>,
    value: Seq<char>,
    default: Seq<char>,
)
    requires
        name != other,
    ensures
        var(vars.push((name, value)), name) == Some(value),
        var(vars.push((other, value)), name) == var(vars, name),
        var(Seq::empty(), name) is None,
        filled(vars.push((name, value)), name) == (if value.len() == 0 {
            None
        } else {
            Some(value)
        }),
        var_or(vars.push((name, value)), name, default) == value,
        var_or(Seq::empty(), name, default) == default,
{
    assert(vars.push((name, value)).drop_last() =~= vars);
    assert(vars.push((other, value)).drop_last() =~= vars);
}

/// The server starts exactly where everything is in order: a strong token, or the word that none is
/// wanted; an address and a port to listen at, those by default where none are given; and trusted
/// proxies that are addresses or ranges, all of them.
pub proof fn the_server_starts_where_all_is_in_order(vars: Seq<(Seq<char>, Seq<char>)>)
    ensures
        config_error(vars) is None <==> {
            &&& match filled(vars, "CONVERTBAR_AUTH_TOKEN"@) {
                Some(token) => token.len() >= 16 && token.to_set().len() >= 8,
                None => var(vars, "CONVERTBAR_NO_AUTH"@) == Some("1"@),
            }
            &&& parsed_address(
                match var(vars, "CONVERTBAR_BIND"@) {
                    Some(host) => host,
                    None => "0.0.0.0"@,
                },
            ) is Some
            &&& parse_int(
                match var(vars, "CONVERTBAR_PORT"@) {
                    Some(port) => port,
                    None => "8080"@,
                },
                0,
                65535,
            ) is Some
            &&& filled(vars, "CONVERTBAR_TRUSTED_PROXIES"@) matches Some(raw) ==> forall|i: int|
                0 <= i < entries_of(raw).len() ==> trusted_range(#[trigger] entries_of(raw)[i])
                    is Some
        },
{
    let entries = proxy_entries(vars);
    if bad_entry(entries, 0) is None {
        assert forall|i: int| 0 <= i < entries.len() implies trusted_range(#[trigger] entries[i])
            is Some by {
            lemma_none_bad(entries, 0, i);
        }
    } else {
        let at = lemma_one_bad(entries, 0);
        assert(trusted_range(entries[at]) is None);
    }
}

/// Where no entry is found bad, none is.
proof fn lemma_none_bad(entries: Seq<Seq<char>>, from: int, k: int)
    requires
        0 <= from <= k < entries.len(),
        bad_entry(entries, from) is None,
    ensures
        trusted_range(entries[k]) is Some,
    decreases entries.len() - from,
{
    if k > from {
        lemma_none_bad(entries, from + 1, k);
    }
}

/// An entry that is found bad is one, and those before it are not.
proof fn lemma_one_bad(entries: Seq<Seq<char>>, from: int) -> (at: int)
    requires
        0 <= from,
        bad_entry(entries, from) is Some,
    ensures
        from <= at < entries.len(),
        bad_entry(entries, from) == Some(entries[at]),
        trusted_range(entries[at]) is None,
    decreases entries.len() - from,
{
    if trusted_range(entries[from]) is None {
        from
    } else {
        lemma_one_bad(entries, from + 1)
    }
}

/// What stops the server is named: the value that was given as an address, as a port, or as the
/// first proxy that is none.
pub proof fn bad_values_are_named(vars: Seq<(Seq<char>, Seq<char>)>)
    ensures
        config_error(vars) matches Some(ErrorView::BadBind(value)) ==> value == var_or(
            vars,
            "CONVERTBAR_BIND"@,
            "0.0.0.0"@,
        ) || value == var_or(vars, "CONVERTBAR_PORT"@, "8080"@),
        config_error(vars) matches Some(ErrorView::BadTrustedProxy(entry)) ==> proxy_entries(
            vars,
        ).contains(entry) && trusted_range(entry) is None,
{
    if bad_entry(proxy_entries(vars), 0) is Some {
        let at = lemma_one_bad(proxy_entries(vars), 0);
        assert(proxy_entries(vars).contains(proxy_entries(vars)[at]));
    }
}

/// A server that starts does what the variables say: it asks for the token that they give or for
/// none, and without word of them listens to every host at its usual port, allows no further name,
/// shows all folders and trusts no proxy.
pub proof fn variables_are_obeyed(vars: Seq<(Seq<char>, Seq<char>)>, config: ServerConfig)
    requires
        configured(vars, config),
    ensures
        filled(vars, "CONVERTBAR_AUTH_TOKEN"@) matches Some(t) ==> (config.auth matches
            AuthMode::Token(s) && s@ == t),
        filled(vars, "CONVERTBAR_AUTH_TOKEN"@) is None ==> config.auth == AuthMode::Open,
        filled(vars, "CONVERTBAR_ALLOWED_HOSTS"@) is None ==> config.allowed_hosts@.len() == 0,
        filled(vars, "CONVERTBAR_ALLOWED_HOSTS"@) matches Some(v)
            ==> config.allowed_hosts.deep_view() == split(v, ','),
        filled(vars, "CONVERTBAR_BROWSE_ROOTS"@) is None ==> config.browse_roots.deep_view()
            == seq!["/"@],
        filled(vars, "CONVERTBAR_BROWSE_ROOTS"@) matches Some(v)
            ==> config.browse_roots.deep_view() == split(v, ':'),
        filled(vars, "CONVERTBAR_TRUSTED_PROXIES"@) is None ==> config.trusted_proxies@.len() == 0,
        var(vars, "CONVERTBAR_PORT"@) is None ==> config.bind.port == 8080,
        var(vars, "CONVERTBAR_BIND"@) is None ==> config.bind.address == Address::V4(0),
{
    reveal_strlit("8080");
    reveal_strlit("0.0.0.0");
    reveal_with_fuel(crate::text::decimal, 5);
    assert(config.allowed_hosts.deep_view().len() == config.allowed_hosts@.len());
    if var(vars, "CONVERTBAR_PORT"@) is None {
        let p = "8080"@;
        assert(p.drop_last().last() == '8' && p.drop_last().drop_last().last() == '0');
        assert(p.drop_last().drop_last().drop_last().last() == '8');
        assert(crate::text::decimal(p) == 8080);
    }
    if var(vars, "CONVERTBAR_BIND"@) is None {
        lemma_any_address();
    }
}

/// The address by default is that of every host.
proof fn lemma_any_address()
    ensures
        parsed_address("0.0.0.0"@) == Some(Address::V4(0)),
{
    reveal_strlit("0.0.0.0");
    let s = "0.0.0.0"@;
    let zero = seq!['0'];
    assert(!s.contains(':'));
    reveal_with_fuel(split, 8);
    reveal_with_fuel(crate::text::decimal, 2);
    assert(split(s, '.') =~= seq![zero, zero, zero, zero]);
    assert(zero.drop_last() =~= Seq::<char>::empty());
    assert(crate::text::decimal(zero) == 0);
    assert(crate::text::all_digits(zero));
}


} // verus!
