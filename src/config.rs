//! The configuration record and its `key = value` file format.

use vstd::prelude::*;
use crate::text::{
    opt_string_view,
    chars_of, string_of, same_text, split_text, split_on, slice_chars, parse_decimal, parse_unsigned, trim_chars,
    trimmed, find_text, find_from, lemma_find_from, occurs_at,
};

verus! {

/// Session pooling on or off.
#[derive(Debug, Clone, Copy, PartialEq, Eq, Structural)]
pub enum PoolMode {
    Off,
    Session,
}

impl PoolMode {
    /// `"none"` or `"session"`.
    pub fn name(&self) -> (r: String)
        ensures
            *self == PoolMode::Off ==> r@ == "none"@,
            *self == PoolMode::Session ==> r@ == "session"@,
    {
        match self {
            PoolMode::Off => String::from_str("none"),
            PoolMode::Session => String::from_str("session"),
        }
    }
}

/// Command-line flags; each one set overrides the configuration.
pub struct Cli {
    pub config: String,
    pub port: Option<u16>,
    pub listen_host: Option<String>,
    pub upstream_host: Option<String>,
    pub upstream_port: Option<u16>,
    pub separator: Option<String>,
    pub context: Option<String>,
    pub value_separator: Option<String>,
    pub superuser: Option<String>,
    pub log_level: Option<String>,
    pub tls_port: Option<u16>,
    pub tls_cert: Option<String>,
    pub tls_key: Option<String>,
    pub upstream_tls: bool,
    pub upstream_tls_verify: Option<bool>,
    pub upstream_tls_ca: Option<String>,
    pub handshake_timeout: Option<u64>,
    pub pool_mode: Option<String>,
    pub pool_size: Option<u32>,
    pub pool_password: Option<String>,
    pub upstream_password: Option<String>,
    pub pool_idle_timeout: Option<u64>,
    pub pool_checkout_timeout: Option<u64>,
    pub resolvers: Option<String>,
    pub admin_port: Option<u16>,
    pub set_role: Option<String>,
    pub tenant_allow: Option<String>,
    pub tenant_deny: Option<String>,
    pub tenant_max_connections: Option<u32>,
    pub tenant_rate_limit: Option<u32>,
    pub tenant_query_timeout: Option<u64>,
}

/// The configuration record.
pub struct Config {
    pub listen_port: u16,
    pub listen_host: String,
    pub upstream_host: String,
    pub upstream_port: u16,
    pub tenant_separator: String,
    pub context_variables: Vec<String>,
    pub value_separator: String,
    pub superuser_bypass: Vec<String>,
    pub log_level: String,
    pub tls_port: Option<u16>,
    pub tls_cert: Option<String>,
    pub tls_key: Option<String>,
    pub upstream_tls: bool,
    pub upstream_tls_verify: bool,
    pub upstream_tls_ca: Option<String>,
    pub handshake_timeout_secs: u64,
    pub pool_mode: PoolMode,
    pub pool_size: u32,
    pub pool_password: Option<String>,
    pub upstream_password: Option<String>,
    pub pool_idle_timeout: u64,
    pub pool_checkout_timeout: u64,
    pub resolvers: Option<String>,
    pub admin_port: Option<u16>,
    pub set_role: Option<String>,
    pub tenant_allow: Option<Vec<String>>,
    pub tenant_deny: Option<Vec<String>>,
    pub tenant_max_connections: Option<u32>,
    pub tenant_rate_limit: Option<u32>,
    pub tenant_query_timeout: Option<u64>,
}

fn text(s: &str) -> (r: String)
    ensures
        r@ == s@,
{
    String::from_str(s)
}

fn one_item(s: &str) -> (r: Vec<String>)
    ensures
        r@.len() == 1,
        r@[0]@ == s@,
{
    let mut v: Vec<String> = Vec::new();
    v.push(text(s));
    v
}

impl Default for Config {
    fn default() -> (r: Self)
        ensures
            r.listen_port == 6432,
            r.upstream_port == 5432,
            r.tenant_separator@ == "."@,
            r.value_separator@ == ":"@,
            r.handshake_timeout_secs == 30,
            r.pool_mode == PoolMode::Off,
            r.pool_size == 20,
            r.pool_idle_timeout == 300,
            r.pool_checkout_timeout == 5,
            r.tls_port is None && r.tls_cert is None && r.tls_key is None,
            r.pool_password is None && r.upstream_password is None,
            r.resolvers is None && r.set_role is None && r.admin_port is None,
            r.tenant_allow is None && r.tenant_deny is None,
            r.tenant_max_connections is None && r.tenant_rate_limit is None && r.tenant_query_timeout is None,
            !r.upstream_tls && r.upstream_tls_verify,
    {
        Config {
            listen_port: 6432,
            listen_host: text("127.0.0.1"),
            upstream_host: text("127.0.0.1"),
            upstream_port: 5432,
            tenant_separator: text("."),
            context_variables: one_item("app.current_tenant_id"),
            value_separator: text(":"),
            superuser_bypass: one_item("postgres"),
            log_level: text("info"),
            tls_port: None,
            tls_cert: None,
            tls_key: None,
            upstream_tls: false,
            upstream_tls_verify: true,
            upstream_tls_ca: None,
            handshake_timeout_secs: 30,
            pool_mode: PoolMode::Off,
            pool_size: 20,
            pool_password: None,
            upstream_password: None,
            pool_idle_timeout: 300,
            pool_checkout_timeout: 5,
            resolvers: None,
            admin_port: None,
            set_role: None,
            tenant_allow: None,
            tenant_deny: None,
            tenant_max_connections: None,
            tenant_rate_limit: None,
            tenant_query_timeout: None,
        }
    }
}

/// Relies on `std::path::Path::exists`: whether the file system shows a file at `path`
/// at the moment of the call.
#[verifier::external_body]
fn path_exists(path: &str) -> bool {
    std::path::Path::new(path).exists()
}

/// The first rule that `c` breaks, given whether the resolver file was found.
pub open spec fn validation_error(c: Config, resolvers_found: bool) -> Option<Seq<char>> {
    if c.tls_port is Some && (c.tls_cert is None || c.tls_key is None) {
        Some("tls_port requires both tls_cert and tls_key"@)
    } else if c.handshake_timeout_secs == 0 {
        Some("handshake_timeout must be > 0"@)
    } else if c.pool_mode == PoolMode::Session && c.pool_password is None {
        Some("pool_mode = session requires pool_password"@)
    } else if c.pool_mode == PoolMode::Session && c.upstream_password is None {
        Some("pool_mode = session requires upstream_password"@)
    } else if c.pool_mode == PoolMode::Session && c.pool_size == 0 {
        Some("pool_size must be > 0"@)
    } else if c.resolvers is Some && !resolvers_found {
        Some("resolvers file not found: "@ + c.resolvers->Some_0@)
    } else if c.tenant_allow is Some && c.tenant_deny is Some {
        Some("tenant_allow and tenant_deny cannot both be set"@)
    } else {
        None
    }
}

impl Config {
    /// Checks the configuration, given whether the configured resolver file exists.
    pub fn validate_with(&self, resolvers_found: bool) -> (r: Result<(), String>)
        ensures
            match validation_error(*self, resolvers_found) {
                Some(m) => r matches Err(e) && e@ == m,
                None => r is Ok,
            },
    {
        if self.tls_port.is_some() && (self.tls_cert.is_none() || self.tls_key.is_none()) {
            return Err(text("tls_port requires both tls_cert and tls_key"));
        }
        if self.handshake_timeout_secs == 0 {
            return Err(text("handshake_timeout must be > 0"));
        }
        if self.pool_mode == PoolMode::Session {
            if self.pool_password.is_none() {
                return Err(text("pool_mode = session requires pool_password"));
            }
            if self.upstream_password.is_none() {
                return Err(text("pool_mode = session requires upstream_password"));
            }
            if self.pool_size == 0 {
                return Err(text("pool_size must be > 0"));
            }
        }
        match &self.resolvers {
            Some(path) => {
                if !resolvers_found {
                    let mut m = chars_of("resolvers file not found: ");
                    let mut p = chars_of(path.as_str());
                    m.append(&mut p);
                    return Err(string_of(m.as_slice()));
                }
            },
            None => {},
        }
        if self.tenant_allow.is_some() && self.tenant_deny.is_some() {
            return Err(text("tenant_allow and tenant_deny cannot both be set"));
        }
        Ok(())
    }

    /// Checks the configuration, looking the resolver file up on disk.
    pub fn validate(&self) -> (r: Result<(), String>)
        ensures
            validation_error(*self, true) is Some && validation_error(*self, false) is Some
                ==> r is Err,
            self.resolvers is None ==> match validation_error(*self, true) {
                Some(m) => r matches Err(e) && e@ == m,
                None => r is Ok,
            },
    {
        let found = match &self.resolvers {
            Some(p) => path_exists(p.as_str()),
            None => true,
        };
        self.validate_with(found)
    }

    /// Whether any tenant isolation feature is configured.
    pub fn has_tenant_limits(&self) -> (r: bool)
        ensures
            r == (self.tenant_allow is Some || self.tenant_deny is Some || self.tenant_max_connections is Some
                || self.tenant_rate_limit is Some),
    {
        self.tenant_allow.is_some() || self.tenant_deny.is_some() || self.tenant_max_connections.is_some()
            || self.tenant_rate_limit.is_some()
    }
}

// ─── Configuration file ─────────────────────────────────────────────────────

pub open spec fn list_view(v: Vec<String>) -> Seq<Seq<char>> {
    v@.map_values(|s: String| s@)
}

pub open spec fn opt_list_view(v: Option<Vec<String>>) -> Option<Seq<Seq<char>>> {
    match v {
        Some(l) => Some(list_view(l)),
        None => None,
    }
}

/// The configuration as plain values.
pub struct ConfigView {
    pub listen_port: u16,
    pub listen_host: Seq<char>,
    pub upstream_host: Seq<char>,
    pub upstream_port: u16,
    pub tenant_separator: Seq<char>,
    pub context_variables: Seq<Seq<char>>,
    pub value_separator: Seq<char>,
    pub superuser_bypass: Seq<Seq<char>>,
    pub log_level: Seq<char>,
    pub tls_port: Option<u16>,
    pub tls_cert: Option<Seq<char>>,
    pub tls_key: Option<Seq<char>>,
    pub upstream_tls: bool,
    pub upstream_tls_verify: bool,
    pub upstream_tls_ca: Option<Seq<char>>,
    pub handshake_timeout_secs: u64,
    pub pool_mode: PoolMode,
    pub pool_size: u32,
    pub pool_password: Option<Seq<char>>,
    pub upstream_password: Option<Seq<char>>,
    pub pool_idle_timeout: u64,
    pub pool_checkout_timeout: u64,
    pub resolvers: Option<Seq<char>>,
    pub admin_port: Option<u16>,
    pub set_role: Option<Seq<char>>,
    pub tenant_allow: Option<Seq<Seq<char>>>,
    pub tenant_deny: Option<Seq<Seq<char>>>,
    pub tenant_max_connections: Option<u32>,
    pub tenant_rate_limit: Option<u32>,
    pub tenant_query_timeout: Option<u64>,
}

impl View for Config {
    type V = ConfigView;

    open spec fn view(&self) -> ConfigView {
        ConfigView {
            listen_port: self.listen_port,
            listen_host: self.listen_host@,
            upstream_host: self.upstream_host@,
            upstream_port: self.upstream_port,
            tenant_separator: self.tenant_separator@,
            context_variables: list_view(self.context_variables),
            value_separator: self.value_separator@,
            superuser_bypass: list_view(self.superuser_bypass),
            log_level: self.log_level@,
            tls_port: self.tls_port,
            tls_cert: opt_string_view(self.tls_cert),
            tls_key: opt_string_view(self.tls_key),
            upstream_tls: self.upstream_tls,
            upstream_tls_verify: self.upstream_tls_verify,
            upstream_tls_ca: opt_string_view(self.upstream_tls_ca),
            handshake_timeout_secs: self.handshake_timeout_secs,
            pool_mode: self.pool_mode,
            pool_size: self.pool_size,
            pool_password: opt_string_view(self.pool_password),
            upstream_password: opt_string_view(self.upstream_password),
            pool_idle_timeout: self.pool_idle_timeout,
            pool_checkout_timeout: self.pool_checkout_timeout,
            resolvers: opt_string_view(self.resolvers),
            admin_port: self.admin_port,
            set_role: opt_string_view(self.set_role),
            tenant_allow: opt_list_view(self.tenant_allow),
            tenant_deny: opt_list_view(self.tenant_deny),
            tenant_max_connections: self.tenant_max_connections,
            tenant_rate_limit: self.tenant_rate_limit,
            tenant_query_timeout: self.tenant_query_timeout,
        }
    }
}

/// The settings a configuration line may name.
#[derive(Debug, Clone, Copy, PartialEq, Eq, Structural)]
pub enum Setting {
    ListenPort,
    ListenHost,
    UpstreamHost,
    UpstreamPort,
    TenantSeparator,
    ContextVariables,
    ValueSeparator,
    SuperuserBypass,
    LogLevel,
    TlsPort,
    TlsCert,
    TlsKey,
    UpstreamTls,
    UpstreamTlsVerify,
    UpstreamTlsCa,
    HandshakeTimeout,
    Pooling,
    PoolSize,
    PoolPassword,
    UpstreamPassword,
    PoolIdleTimeout,
    PoolCheckoutTimeout,
    Resolvers,
    AdminPort,
    SetRole,
    TenantAllow,
    TenantDeny,
    TenantMaxConnections,
    TenantRateLimit,
    TenantQueryTimeout,
}

/// The setting a key names, with its aliases.
pub open spec fn setting_for(k: Seq<char>) -> Option<Setting> {
    if k == "port"@ || k == "listen_port"@ { Some(Setting::ListenPort) }
    else if k == "listen_host"@ || k == "host"@ { Some(Setting::ListenHost) }
    else if k == "upstream_host"@ { Some(Setting::UpstreamHost) }
    else if k == "upstream_port"@ { Some(Setting::UpstreamPort) }
    else if k == "tenant_separator"@ || k == "separator"@ { Some(Setting::TenantSeparator) }
    else if k == "context_variables"@ || k == "context"@ { Some(Setting::ContextVariables) }
    else if k == "value_separator"@ { Some(Setting::ValueSeparator) }
    else if k == "superuser_bypass"@ || k == "superuser"@ { Some(Setting::SuperuserBypass) }
    else if k == "log_level"@ { Some(Setting::LogLevel) }
    else if k == "tls_port"@ { Some(Setting::TlsPort) }
    else if k == "tls_cert"@ { Some(Setting::TlsCert) }
    else if k == "tls_key"@ { Some(Setting::TlsKey) }
    else if k == "upstream_tls"@ { Some(Setting::UpstreamTls) }
    else if k == "upstream_tls_verify"@ { Some(Setting::UpstreamTlsVerify) }
    else if k == "upstream_tls_ca"@ { Some(Setting::UpstreamTlsCa) }
    else if k == "handshake_timeout"@ || k == "handshake_timeout_secs"@ { Some(Setting::HandshakeTimeout) }
    else if k == "pool_mode"@ { Some(Setting::Pooling) }
    else if k == "pool_size"@ { Some(Setting::PoolSize) }
    else if k == "pool_password"@ { Some(Setting::PoolPassword) }
    else if k == "upstream_password"@ { Some(Setting::UpstreamPassword) }
    else if k == "pool_idle_timeout"@ { Some(Setting::PoolIdleTimeout) }
    else if k == "pool_checkout_timeout"@ { Some(Setting::PoolCheckoutTimeout) }
    else if k == "resolvers"@ { Some(Setting::Resolvers) }
    else if k == "admin_port"@ { Some(Setting::AdminPort) }
    else if k == "set_role"@ { Some(Setting::SetRole) }
    else if k == "tenant_allow"@ { Some(Setting::TenantAllow) }
    else if k == "tenant_deny"@ { Some(Setting::TenantDeny) }
    else if k == "tenant_max_connections"@ { Some(Setting::TenantMaxConnections) }
    else if k == "tenant_rate_limit"@ { Some(Setting::TenantRateLimit) }
    else if k == "tenant_query_timeout"@ { Some(Setting::TenantQueryTimeout) }
    else { None }
}

/// Looks a configuration key up.
pub fn setting_of(key: &str) -> (r: Option<Setting>)
    ensures
        r == setting_for(key@),
{
    if same_text(key, "port") || same_text(key, "listen_port") { Some(Setting::ListenPort) }
    else if same_text(key, "listen_host") || same_text(key, "host") { Some(Setting::ListenHost) }
    else if same_text(key, "upstream_host") { Some(Setting::UpstreamHost) }
    else if same_text(key, "upstream_port") { Some(Setting::UpstreamPort) }
    else if same_text(key, "tenant_separator") || same_text(key, "separator") { Some(Setting::TenantSeparator) }
    else if same_text(key, "context_variables") || same_text(key, "context") { Some(Setting::ContextVariables) }
    else if same_text(key, "value_separator") { Some(Setting::ValueSeparator) }
    else if same_text(key, "superuser_bypass") || same_text(key, "superuser") { Some(Setting::SuperuserBypass) }
    else if same_text(key, "log_level") { Some(Setting::LogLevel) }
    else if same_text(key, "tls_port") { Some(Setting::TlsPort) }
    else if same_text(key, "tls_cert") { Some(Setting::TlsCert) }
    else if same_text(key, "tls_key") { Some(Setting::TlsKey) }
    else if same_text(key, "upstream_tls") { Some(Setting::UpstreamTls) }
    else if same_text(key, "upstream_tls_verify") { Some(Setting::UpstreamTlsVerify) }
    else if same_text(key, "upstream_tls_ca") { Some(Setting::UpstreamTlsCa) }
    else if same_text(key, "handshake_timeout") || same_text(key, "handshake_timeout_secs") { Some(Setting::HandshakeTimeout) }
    else if same_text(key, "pool_mode") { Some(Setting::Pooling) }
    else if same_text(key, "pool_size") { Some(Setting::PoolSize) }
    else if same_text(key, "pool_password") { Some(Setting::PoolPassword) }
    else if same_text(key, "upstream_password") { Some(Setting::UpstreamPassword) }
    else if same_text(key, "pool_idle_timeout") { Some(Setting::PoolIdleTimeout) }
    else if same_text(key, "pool_checkout_timeout") { Some(Setting::PoolCheckoutTimeout) }
    else if same_text(key, "resolvers") { Some(Setting::Resolvers) }
    else if same_text(key, "admin_port") { Some(Setting::AdminPort) }
    else if same_text(key, "set_role") { Some(Setting::SetRole) }
    else if same_text(key, "tenant_allow") { Some(Setting::TenantAllow) }
    else if same_text(key, "tenant_deny") { Some(Setting::TenantDeny) }
    else if same_text(key, "tenant_max_connections") { Some(Setting::TenantMaxConnections) }
    else if same_text(key, "tenant_rate_limit") { Some(Setting::TenantRateLimit) }
    else if same_text(key, "tenant_query_timeout") { Some(Setting::TenantQueryTimeout) }
    else { None }
}

/// The comma-separated items of `v`, each trimmed.
pub open spec fn csv_items(v: Seq<char>) -> Seq<Seq<char>> {
    split_on(v, ","@).map_values(|p: Seq<char>| trimmed(p))
}

/// Splits on commas and trims each item.
pub fn split_csv(v: &str) -> (r: Vec<String>)
    ensures
        list_view(r) == csv_items(v@),
{
    proof { reveal_strlit(","); }
    let cs = chars_of(v);
    let comma = chars_of(",");
    let parts = split_text(&cs, &comma);
    let ghost pv = parts@.map_values(|p: Vec<char>| p@);
    let mut out: Vec<String> = Vec::new();
    let mut i: usize = 0;
    while i < parts.len()
        invariant
            i <= parts@.len(),
            pv == parts@.map_values(|p: Vec<char>| p@),
            list_view(out) == pv.map_values(|p: Seq<char>| trimmed(p)).subrange(0, i as int),
        decreases parts@.len() - i,
    {
        let t = string_of(trim_chars(&parts[i]).as_slice());
        let ghost before = list_view(out);
        out.push(t);
        assert(list_view(out) =~= before.push(t@));
        assert(pv.map_values(|p: Seq<char>| trimmed(p)).subrange(0, i + 1)
            =~= pv.map_values(|p: Seq<char>| trimmed(p)).subrange(0, i as int).push(trimmed(pv[i as int])));
        i += 1;
    }
    assert(pv.map_values(|p: Seq<char>| trimmed(p)).subrange(0, pv.len() as int) =~= pv.map_values(|p: Seq<char>| trimmed(p)));
    out
}

pub open spec fn ascii_lower(c: char) -> char {
    if 'A' <= c && c <= 'Z' { (((c as u8) + 32) as u8) as char } else { c }
}

/// `pool_mode` text: `session` in any letter case, with surrounding whitespace, selects
/// session pooling; anything else turns pooling off.
pub open spec fn pool_mode_for(v: Seq<char>) -> PoolMode {
    let t = trimmed(v);
    if t.len() == 7 && (forall|i: int| 0 <= i < 7 ==> ascii_lower(#[trigger] t[i]) == "session"@[i]) {
        PoolMode::Session
    } else {
        PoolMode::Off
    }
}

/// Reads a pool mode, ignoring letter case and surrounding whitespace.
pub fn parse_pool_mode(value: &str) -> (r: PoolMode)
    ensures
        r == pool_mode_for(value@),
{
    proof { reveal_strlit("session"); }
    let t = trim_chars(&chars_of(value));
    let want = chars_of("session");
    if t.len() != 7 {
        return PoolMode::Off;
    }
    let mut i: usize = 0;
    while i < 7
        invariant
            i <= 7,
            t@.len() == 7,
            t@ == trimmed(value@),
            want@ == "session"@,
            forall|q: int| 0 <= q < i ==> ascii_lower(#[trigger] t@[q]) == "session"@[q],
        decreases 7 - i,
    {
        proof { reveal_strlit("session"); }
        let c = t[i];
        let l = if 'A' <= c && c <= 'Z' { ((c as u8) + 32) as char } else { c };
        if l != want[i] {
            assert(ascii_lower(t@[i as int]) != "session"@[i as int]);
            return PoolMode::Off;
        }
        i += 1;
    }
    PoolMode::Session
}

/// What `true`/`1`/`yes` turn on.
pub open spec fn truthy(v: Seq<char>) -> bool {
    v == "true"@ || v == "1"@ || v == "yes"@
}

/// What `false`/`0`/`no` turn off.
pub open spec fn falsy(v: Seq<char>) -> bool {
    v == "false"@ || v == "0"@ || v == "no"@
}

/// The configuration after one setting is given the text `v`. Numbers that do not parse
/// leave the setting as it was.
pub open spec fn with_setting(c: ConfigView, s: Setting, v: Seq<char>) -> ConfigView {
    match s {
        Setting::ListenPort => match parse_unsigned(v, 65535) { Some(n) => ConfigView { listen_port: n as u16, ..c }, None => c },
        Setting::ListenHost => ConfigView { listen_host: v, ..c },
        Setting::UpstreamHost => ConfigView { upstream_host: v, ..c },
        Setting::UpstreamPort => match parse_unsigned(v, 65535) { Some(n) => ConfigView { upstream_port: n as u16, ..c }, None => c },
        Setting::TenantSeparator => ConfigView { tenant_separator: v, ..c },
        Setting::ContextVariables => ConfigView { context_variables: csv_items(v), ..c },
        Setting::ValueSeparator => ConfigView { value_separator: v, ..c },
        Setting::SuperuserBypass => ConfigView { superuser_bypass: csv_items(v), ..c },
        Setting::LogLevel => ConfigView { log_level: v, ..c },
        Setting::TlsPort => match parse_unsigned(v, 65535) { Some(n) => ConfigView { tls_port: Some(n as u16), ..c }, None => c },
        Setting::TlsCert => ConfigView { tls_cert: Some(v), ..c },
        Setting::TlsKey => ConfigView { tls_key: Some(v), ..c },
        Setting::UpstreamTls => ConfigView { upstream_tls: truthy(v), ..c },
        Setting::UpstreamTlsVerify => ConfigView { upstream_tls_verify: !falsy(v), ..c },
        Setting::UpstreamTlsCa => ConfigView { upstream_tls_ca: Some(v), ..c },
        Setting::HandshakeTimeout => match parse_unsigned(v, 18446744073709551615) { Some(n) => ConfigView { handshake_timeout_secs: n as u64, ..c }, None => c },
        Setting::Pooling => ConfigView { pool_mode: pool_mode_for(v), ..c },
        Setting::PoolSize => match parse_unsigned(v, 4294967295) { Some(n) => ConfigView { pool_size: n as u32, ..c }, None => c },
        Setting::PoolPassword => ConfigView { pool_password: Some(v), ..c },
        Setting::UpstreamPassword => ConfigView { upstream_password: Some(v), ..c },
        Setting::PoolIdleTimeout => match parse_unsigned(v, 18446744073709551615) { Some(n) => ConfigView { pool_idle_timeout: n as u64, ..c }, None => c },
        Setting::PoolCheckoutTimeout => match parse_unsigned(v, 18446744073709551615) { Some(n) => ConfigView { pool_checkout_timeout: n as u64, ..c }, None => c },
        Setting::Resolvers => ConfigView { resolvers: Some(v), ..c },
        Setting::AdminPort => match parse_unsigned(v, 65535) { Some(n) => ConfigView { admin_port: Some(n as u16), ..c }, None => c },
        Setting::SetRole => ConfigView { set_role: Some(v), ..c },
        Setting::TenantAllow => ConfigView { tenant_allow: Some(csv_items(v)), ..c },
        Setting::TenantDeny => ConfigView { tenant_deny: Some(csv_items(v)), ..c },
        Setting::TenantMaxConnections => match parse_unsigned(v, 4294967295) { Some(n) => ConfigView { tenant_max_connections: Some(n as u32), ..c }, None => c },
        Setting::TenantRateLimit => match parse_unsigned(v, 4294967295) { Some(n) => ConfigView { tenant_rate_limit: Some(n as u32), ..c }, None => c },
        Setting::TenantQueryTimeout => match parse_unsigned(v, 18446744073709551615) { Some(n) => ConfigView { tenant_query_timeout: Some(n as u64), ..c }, None => c },
    }
}

fn words_eq(v: &str, a: &str, b: &str, c: &str) -> (r: bool)
    ensures
        r == (v@ == a@ || v@ == b@ || v@ == c@),
{
    same_text(v, a) || same_text(v, b) || same_text(v, c)
}

impl Config {
    /// Gives one setting the text `value`.
    pub fn apply_setting(&mut self, setting: Setting, value: &str)
        ensures
            final(self)@ == with_setting(old(self)@, setting, value@),
    {
        let v = text(value);
        match setting {
            Setting::ListenPort => { if let Some(n) = parse_decimal(value, 65535) { self.listen_port = n as u16; } },
            Setting::ListenHost => { self.listen_host = v; },
            Setting::UpstreamHost => { self.upstream_host = v; },
            Setting::UpstreamPort => { if let Some(n) = parse_decimal(value, 65535) { self.upstream_port = n as u16; } },
            Setting::TenantSeparator => { self.tenant_separator = v; },
            Setting::ContextVariables => { self.context_variables = split_csv(value); },
            Setting::ValueSeparator => { self.value_separator = v; },
            Setting::SuperuserBypass => { self.superuser_bypass = split_csv(value); },
            Setting::LogLevel => { self.log_level = v; },
            Setting::TlsPort => { if let Some(n) = parse_decimal(value, 65535) { self.tls_port = Some(n as u16); } },
            Setting::TlsCert => { self.tls_cert = Some(v); },
            Setting::TlsKey => { self.tls_key = Some(v); },
            Setting::UpstreamTls => { self.upstream_tls = words_eq(value, "true", "1", "yes"); },
            Setting::UpstreamTlsVerify => { self.upstream_tls_verify = !words_eq(value, "false", "0", "no"); },
            Setting::UpstreamTlsCa => { self.upstream_tls_ca = Some(v); },
            Setting::HandshakeTimeout => { if let Some(n) = parse_decimal(value, 18446744073709551615) { self.handshake_timeout_secs = n; } },
            Setting::Pooling => { self.pool_mode = parse_pool_mode(value); },
            Setting::PoolSize => { if let Some(n) = parse_decimal(value, 4294967295) { self.pool_size = n as u32; } },
            Setting::PoolPassword => { self.pool_password = Some(v); },
            Setting::UpstreamPassword => { self.upstream_password = Some(v); },
            Setting::PoolIdleTimeout => { if let Some(n) = parse_decimal(value, 18446744073709551615) { self.pool_idle_timeout = n; } },
            Setting::PoolCheckoutTimeout => { if let Some(n) = parse_decimal(value, 18446744073709551615) { self.pool_checkout_timeout = n; } },
            Setting::Resolvers => { self.resolvers = Some(v); },
            Setting::AdminPort => { if let Some(n) = parse_decimal(value, 65535) { self.admin_port = Some(n as u16); } },
            Setting::SetRole => { self.set_role = Some(v); },
            Setting::TenantAllow => { self.tenant_allow = Some(split_csv(value)); },
            Setting::TenantDeny => { self.tenant_deny = Some(split_csv(value)); },
            Setting::TenantMaxConnections => { if let Some(n) = parse_decimal(value, 4294967295) { self.tenant_max_connections = Some(n as u32); } },
            Setting::TenantRateLimit => { if let Some(n) = parse_decimal(value, 4294967295) { self.tenant_rate_limit = Some(n as u32); } },
            Setting::TenantQueryTimeout => { if let Some(n) = parse_decimal(value, 18446744073709551615) { self.tenant_query_timeout = Some(n); } },
        }
    }
}

/// A value without one pair of enclosing double or single quotes.
pub open spec fn unquoted(v: Seq<char>) -> Seq<char> {
    if v.len() >= 2 && ((v[0] == '"' && v.last() == '"') || (v[0] == '\'' && v.last() == '\'')) {
        v.subrange(1, v.len() - 1)
    } else {
        v
    }
}

/// The key and value of a configuration line: blank lines, `#` comments and lines without
/// `=` give none. Key and value are trimmed; the value loses enclosing quotes.
pub open spec fn config_line(line: Seq<char>) -> Option<(Seq<char>, Seq<char>)> {
    let t = trimmed(line);
    if t.len() == 0 || t[0] == '#' {
        None
    } else {
        match find_from(t, "="@, 0) {
            None => None,
            Some(i) => Some((trimmed(t.subrange(0, i)), unquoted(trimmed(t.subrange(i + 1, t.len() as int))))),
        }
    }
}

/// The configuration after the first `k` lines.
pub open spec fn config_after(c: ConfigView, lines: Seq<Seq<char>>, k: int) -> ConfigView
    decreases k,
{
    if k <= 0 || k > lines.len() {
        c
    } else {
        let prev = config_after(c, lines, k - 1);
        match config_line(lines[k - 1]) {
            Some((key, v)) => match setting_for(key) {
                Some(st) => with_setting(prev, st, v),
                None => prev,
            },
            None => prev,
        }
    }
}

/// Reads the key and value of one configuration line.
pub fn parse_config_line(line: &str) -> (r: Option<(String, String)>)
    ensures
        match config_line(line@) {
            Some((k, v)) => r matches Some((rk, rv)) && rk@ == k && rv@ == v,
            None => r is None,
        },
{
    proof { reveal_strlit("="); }
    let t = trim_chars(&chars_of(line));
    if t.len() == 0 || t[0] == '#' {
        return None;
    }
    let eq = chars_of("=");
    let i = match find_text(&t, &eq, 0) {
        Some(i) => i,
        None => return None,
    };
    proof { lemma_find_from(t@, eq@, 0); }
    assert(occurs_at(t@, eq@, i as int));
    let key = trim_chars(&slice_chars(&t, 0, i));
    let v = trim_chars(&slice_chars(&t, i + 1, t.len()));
    let n = v.len();
    let value = if n >= 2 && ((v[0] == '"' && v[n - 1] == '"') || (v[0] == '\'' && v[n - 1] == '\'')) {
        slice_chars(&v, 1, n - 1)
    } else {
        v
    };
    Some((string_of(key.as_slice()), string_of(value.as_slice())))
}

/// Applies a `key = value` configuration text, line by line. Unknown keys, blank lines,
/// comments and lines without `=` are skipped.
pub fn apply_config_file(config: &mut Config, content: &str)
    ensures
        final(config)@ == config_after(old(config)@, split_on(content@, "\n"@), split_on(content@, "\n"@).len() as int),
{
    proof { reveal_strlit("\n"); }
    let cs = chars_of(content);
    let nl = chars_of("\n");
    let lines = split_text(&cs, &nl);
    let ghost lv = lines@.map_values(|p: Vec<char>| p@);
    let mut k: usize = 0;
    while k < lines.len()
        invariant
            k <= lines@.len(),
            lv == lines@.map_values(|p: Vec<char>| p@),
            lv == split_on(content@, "\n"@),
            config@ == config_after(old(config)@, lv, k as int),
        decreases lines@.len() - k,
    {
        let line = string_of(lines[k].as_slice());
        assert(lv[k as int] == line@);
        match parse_config_line(line.as_str()) {
            Some((key, value)) => {
                match setting_of(key.as_str()) {
                    Some(st) => config.apply_setting(st, value.as_str()),
                    None => {},
                }
            },
            None => {},
        }
        k += 1;
    }
}

pub open spec fn or_text(o: Option<String>, d: Seq<char>) -> Seq<char> {
    match o { Some(v) => v@, None => d }
}

pub open spec fn or_some_text(o: Option<String>, d: Option<Seq<char>>) -> Option<Seq<char>> {
    match o { Some(v) => Some(v@), None => d }
}

pub open spec fn or_csv(o: Option<String>, d: Seq<Seq<char>>) -> Seq<Seq<char>> {
    match o { Some(v) => csv_items(v@), None => d }
}

pub open spec fn or_some_csv(o: Option<String>, d: Option<Seq<Seq<char>>>) -> Option<Seq<Seq<char>>> {
    match o { Some(v) => Some(csv_items(v@)), None => d }
}

pub open spec fn or_val<T>(o: Option<T>, d: T) -> T {
    match o { Some(v) => v, None => d }
}

pub open spec fn or_some<T>(o: Option<T>, d: Option<T>) -> Option<T> {
    match o { Some(v) => Some(v), None => d }
}

/// The configuration with every flag that was given taking precedence.
pub open spec fn with_cli(c: ConfigView, cli: Cli) -> ConfigView {
    ConfigView {
        listen_port: or_val(cli.port, c.listen_port),
        listen_host: or_text(cli.listen_host, c.listen_host),
        upstream_host: or_text(cli.upstream_host, c.upstream_host),
        upstream_port: or_val(cli.upstream_port, c.upstream_port),
        tenant_separator: or_text(cli.separator, c.tenant_separator),
        context_variables: or_csv(cli.context, c.context_variables),
        value_separator: or_text(cli.value_separator, c.value_separator),
        superuser_bypass: or_csv(cli.superuser, c.superuser_bypass),
        log_level: or_text(cli.log_level, c.log_level),
        tls_port: or_some(cli.tls_port, c.tls_port),
        tls_cert: or_some_text(cli.tls_cert, c.tls_cert),
        tls_key: or_some_text(cli.tls_key, c.tls_key),
        upstream_tls: cli.upstream_tls || c.upstream_tls,
        upstream_tls_verify: or_val(cli.upstream_tls_verify, c.upstream_tls_verify),
        upstream_tls_ca: or_some_text(cli.upstream_tls_ca, c.upstream_tls_ca),
        handshake_timeout_secs: or_val(cli.handshake_timeout, c.handshake_timeout_secs),
        pool_mode: match cli.pool_mode { Some(v) => pool_mode_for(v@), None => c.pool_mode },
        pool_size: or_val(cli.pool_size, c.pool_size),
        pool_password: or_some_text(cli.pool_password, c.pool_password),
        upstream_password: or_some_text(cli.upstream_password, c.upstream_password),
        pool_idle_timeout: or_val(cli.pool_idle_timeout, c.pool_idle_timeout),
        pool_checkout_timeout: or_val(cli.pool_checkout_timeout, c.pool_checkout_timeout),
        resolvers: or_some_text(cli.resolvers, c.resolvers),
        admin_port: or_some(cli.admin_port, c.admin_port),
        set_role: or_some_text(cli.set_role, c.set_role),
        tenant_allow: or_some_csv(cli.tenant_allow, c.tenant_allow),
        tenant_deny: or_some_csv(cli.tenant_deny, c.tenant_deny),
        tenant_max_connections: or_some(cli.tenant_max_connections, c.tenant_max_connections),
        tenant_rate_limit: or_some(cli.tenant_rate_limit, c.tenant_rate_limit),
        tenant_query_timeout: or_some(cli.tenant_query_timeout, c.tenant_query_timeout),
    }
}

fn pick<T>(o: Option<T>, d: T) -> (r: T)
    ensures
        r == or_val(o, d),
{
    match o { Some(v) => v, None => d }
}

fn pick_some<T>(o: Option<T>, d: Option<T>) -> (r: Option<T>)
    ensures
        r == or_some(o, d),
{
    match o { Some(v) => Some(v), None => d }
}

fn pick_text(o: Option<String>, d: String) -> (r: String)
    ensures
        r@ == or_text(o, d@),
{
    match o { Some(v) => v, None => d }
}

fn pick_some_text(o: Option<String>, d: Option<String>) -> (r: Option<String>)
    ensures
        opt_string_view(r) == or_some_text(o, opt_string_view(d)),
{
    match o { Some(v) => Some(v), None => d }
}

fn pick_csv(o: &Option<String>, d: Vec<String>) -> (r: Vec<String>)
    ensures
        list_view(r) == or_csv(*o, list_view(d)),
{
    match o { Some(v) => split_csv(v.as_str()), None => d }
}

fn pick_some_csv(o: &Option<String>, d: Option<Vec<String>>) -> (r: Option<Vec<String>>)
    ensures
        opt_list_view(r) == or_some_csv(*o, opt_list_view(d)),
{
    match o { Some(v) => Some(split_csv(v.as_str())), None => d }
}

impl Config {
    /// Lets every command-line flag that was given override the configuration.
    pub fn apply_cli(self, cli: Cli) -> (r: Config)
        ensures
            r@ == with_cli(self@, cli),
    {
        let pool_mode = match &cli.pool_mode { Some(v) => parse_pool_mode(v.as_str()), None => self.pool_mode };
        let context_variables = pick_csv(&cli.context, self.context_variables);
        let superuser_bypass = pick_csv(&cli.superuser, self.superuser_bypass);
        let tenant_allow = pick_some_csv(&cli.tenant_allow, self.tenant_allow);
        let tenant_deny = pick_some_csv(&cli.tenant_deny, self.tenant_deny);
        let r = Config {
            listen_port: pick(cli.port, self.listen_port),
            listen_host: pick_text(cli.listen_host, self.listen_host),
            upstream_host: pick_text(cli.upstream_host, self.upstream_host),
            upstream_port: pick(cli.upstream_port, self.upstream_port),
            tenant_separator: pick_text(cli.separator, self.tenant_separator),
            context_variables,
            value_separator: pick_text(cli.value_separator, self.value_separator),
            superuser_bypass,
            log_level: pick_text(cli.log_level, self.log_level),
            tls_port: pick_some(cli.tls_port, self.tls_port),
            tls_cert: pick_some_text(cli.tls_cert, self.tls_cert),
            tls_key: pick_some_text(cli.tls_key, self.tls_key),
            upstream_tls: cli.upstream_tls || self.upstream_tls,
            upstream_tls_verify: pick(cli.upstream_tls_verify, self.upstream_tls_verify),
            upstream_tls_ca: pick_some_text(cli.upstream_tls_ca, self.upstream_tls_ca),
            handshake_timeout_secs: pick(cli.handshake_timeout, self.handshake_timeout_secs),
            pool_mode,
            pool_size: pick(cli.pool_size, self.pool_size),
            pool_password: pick_some_text(cli.pool_password, self.pool_password),
            upstream_password: pick_some_text(cli.upstream_password, self.upstream_password),
            pool_idle_timeout: pick(cli.pool_idle_timeout, self.pool_idle_timeout),
            pool_checkout_timeout: pick(cli.pool_checkout_timeout, self.pool_checkout_timeout),
            resolvers: pick_some_text(cli.resolvers, self.resolvers),
            admin_port: pick_some(cli.admin_port, self.admin_port),
            set_role: pick_some_text(cli.set_role, self.set_role),
            tenant_allow,
            tenant_deny,
            tenant_max_connections: pick_some(cli.tenant_max_connections, self.tenant_max_connections),
            tenant_rate_limit: pick_some(cli.tenant_rate_limit, self.tenant_rate_limit),
            tenant_query_timeout: pick_some(cli.tenant_query_timeout, self.tenant_query_timeout),
        };
        r
    }
}

} // verus!
