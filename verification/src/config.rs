//! Service configuration: ports, worker URLs, presence and wake settings,
//! with the defaults the product ships and the checks run at startup.

use vstd::prelude::*;

use crate::text::{all_space, contains_space, decimal, has_prefix, has_space, only_space,
    push_char, push_decimal, starts_with};
use crate::{API_PORT, GRPC_PORT, LLM_PORT, STT_PORT, TTS_PORT};

verus! {

/// Why a configuration could not be used.
#[derive(Debug)]
pub enum ConfigError {
    /// The file could not be read.
    Io { path: String, message: String },
    /// The file is not valid TOML for this schema.
    Parse { path: String, message: String },
    /// The values break a rule.
    Invalid { path: String, message: String },
}

#[derive(Debug, Clone, PartialEq, Eq)]
pub struct Config {
    pub api: ApiConfig,
    pub grpc: GrpcConfig,
    pub llm: ServiceUrl,
    pub stt: ServiceUrl,
    pub tts: ServiceUrl,
    pub presence: PresenceConfig,
    pub wake: WakeConfig,
}

#[derive(Debug, Clone, PartialEq, Eq)]
pub struct ApiConfig {
    pub host: String,
    pub port: u16,
}

#[derive(Debug, Clone, PartialEq, Eq)]
pub struct GrpcConfig {
    pub host: String,
    pub port: u16,
}

#[derive(Debug, Clone, PartialEq, Eq)]
pub struct ServiceUrl {
    pub url: String,
}

#[derive(Debug, Clone, PartialEq, Eq)]
pub struct PresenceConfig {
    pub exit_delay_ms: u64,
}

#[derive(Debug, Clone, PartialEq, Eq)]
pub struct WakeConfig {
    pub keyword: String,
}

/// `http://127.0.0.1:<port>`: a worker on this machine.
pub open spec fn local_url(port: u16) -> Seq<char> {
    "http://127.0.0.1:"@ + decimal(port as nat)
}

fn local_url_string(port: u16) -> (r: String)
    ensures
        r@ == local_url(port),
{
    let mut s = String::from_str("http://127.0.0.1:");
    push_decimal(&mut s, port as u64);
    s
}

impl Default for ApiConfig {
    fn default() -> (r: Self)
        ensures
            r.host@ == "0.0.0.0"@,
            r.port == API_PORT,
    {
        ApiConfig { host: default_api_host(), port: default_api_port() }
    }
}

impl Default for GrpcConfig {
    fn default() -> (r: Self)
        ensures
            r.host@ == "0.0.0.0"@,
            r.port == GRPC_PORT,
    {
        GrpcConfig { host: default_grpc_host(), port: default_grpc_port() }
    }
}

impl Default for ServiceUrl {
    /// The LLM worker.
    fn default() -> (r: Self)
        ensures
            r.url@ == local_url(LLM_PORT),
    {
        ServiceUrl { url: local_url_string(LLM_PORT) }
    }
}

/// The speech-to-text worker.
pub fn default_stt() -> (r: ServiceUrl)
    ensures
        r.url@ == local_url(STT_PORT),
{
    ServiceUrl { url: local_url_string(STT_PORT) }
}

/// The text-to-speech worker.
pub fn default_tts() -> (r: ServiceUrl)
    ensures
        r.url@ == local_url(TTS_PORT),
{
    ServiceUrl { url: local_url_string(TTS_PORT) }
}

impl Default for PresenceConfig {
    fn default() -> (r: Self)
        ensures
            r.exit_delay_ms == 30_000,
    {
        PresenceConfig { exit_delay_ms: default_exit_delay() }
    }
}

impl Default for WakeConfig {
    fn default() -> (r: Self)
        ensures
            r.keyword@ == "hey home"@,
    {
        WakeConfig { keyword: default_wake() }
    }
}

/// The shipped configuration.
pub open spec fn is_default_config(c: Config) -> bool {
    &&& c.api.host@ == "0.0.0.0"@
    &&& c.api.port == API_PORT
    &&& c.grpc.host@ == "0.0.0.0"@
    &&& c.grpc.port == GRPC_PORT
    &&& c.llm.url@ == local_url(LLM_PORT)
    &&& c.stt.url@ == local_url(STT_PORT)
    &&& c.tts.url@ == local_url(TTS_PORT)
    &&& c.presence.exit_delay_ms == 30_000
    &&& c.wake.keyword@ == "hey home"@
}

impl Default for Config {
    fn default() -> (r: Self)
        ensures
            is_default_config(r),
    {
        Config {
            api: ApiConfig::default(),
            grpc: GrpcConfig::default(),
            llm: ServiceUrl::default(),
            stt: default_stt(),
            tts: default_tts(),
            presence: PresenceConfig::default(),
            wake: WakeConfig::default(),
        }
    }
}

pub fn default_api_host() -> (r: String)
    ensures
        r@ == "0.0.0.0"@,
{
    String::from_str("0.0.0.0")
}

pub fn default_api_port() -> (r: u16)
    ensures
        r == API_PORT,
{
    API_PORT
}

pub fn default_grpc_host() -> (r: String)
    ensures
        r@ == "0.0.0.0"@,
{
    String::from_str("0.0.0.0")
}

pub fn default_grpc_port() -> (r: u16)
    ensures
        r == GRPC_PORT,
{
    GRPC_PORT
}

pub fn default_exit_delay() -> (r: u64)
    ensures
        r == 30_000,
{
    30_000
}

pub fn default_wake() -> (r: String)
    ensures
        r@ == "hey home"@,
{
    String::from_str("hey home")
}

pub open spec fn http_scheme() -> Seq<char> {
    seq!['h', 't', 't', 'p', ':', '/', '/']
}

pub open spec fn https_scheme() -> Seq<char> {
    seq!['h', 't', 't', 'p', 's', ':', '/', '/']
}

/// What follows the first `://` of a URL that starts with `http://` or
/// `https://` (the scheme holds no `:` before it).
pub open spec fn after_scheme(s: Seq<char>) -> Seq<char> {
    if has_prefix(s, http_scheme()) {
        s.skip(7)
    } else {
        s.skip(8)
    }
}

/// Why `s` is not an acceptable worker URL, if it is not.
pub open spec fn url_problem(s: Seq<char>) -> Option<Seq<char>> {
    if !(has_prefix(s, http_scheme()) || has_prefix(s, https_scheme())) {
        Some("must start with http:// or https://"@)
    } else if has_space(s) {
        Some("must not contain whitespace"@)
    } else if after_scheme(s).len() == 0 {
        Some("missing host"@)
    } else {
        None
    }
}

pub fn check_http_url(s: &str) -> (r: Result<(), String>)
    ensures
        match url_problem(s@) {
            None => r is Ok,
            Some(m) => r matches Err(e) && e@ == m,
        },
{
    proof {
        reveal_strlit("http://");
        reveal_strlit("https://");
    }
    let http = starts_with(s, "http://");
    let https = starts_with(s, "https://");
    assert("http://"@ =~= http_scheme());
    assert("https://"@ =~= https_scheme());
    if !(http || https) {
        return Err(String::from_str("must start with http:// or https://"));
    }
    if contains_space(s) {
        return Err(String::from_str("must not contain whitespace"));
    }
    let n = s.unicode_len();
    let skip: usize = if http { 7 } else { 8 };
    if n <= skip {
        return Err(String::from_str("missing host"));
    }
    Ok(())
}

/// `prefix` followed by a problem description.
pub open spec fn labelled(prefix: Seq<char>, m: Seq<char>) -> Seq<char> {
    prefix + m
}

/// Why configuration `c` is rejected, if it is: the first rule it breaks.
pub open spec fn config_problem(c: Config) -> Option<Seq<char>> {
    if c.api.port == 0 {
        Some("api.port must be non-zero"@)
    } else if c.grpc.port == 0 {
        Some("grpc.port must be non-zero"@)
    } else if url_problem(c.llm.url@) is Some {
        Some(labelled("llm.url: "@, url_problem(c.llm.url@)->0))
    } else if url_problem(c.stt.url@) is Some {
        Some(labelled("stt.url: "@, url_problem(c.stt.url@)->0))
    } else if url_problem(c.tts.url@) is Some {
        Some(labelled("tts.url: "@, url_problem(c.tts.url@)->0))
    } else if c.presence.exit_delay_ms == 0 {
        Some("presence.exit_delay_ms must be > 0"@)
    } else if all_space(c.wake.keyword@) {
        Some("wake.keyword must not be empty"@)
    } else {
        None
    }
}

fn invalid(path: &str, message: String) -> (r: ConfigError)
    ensures
        r matches ConfigError::Invalid { path: p, message: m } && p@ == path@ && m@ == message@,
{
    ConfigError::Invalid { path: String::from_str(path), message }
}

fn labelled_string(label: &str, m: String) -> (r: String)
    ensures
        r@ == labelled(label@, m@),
{
    let mut s = String::from_str(label);
    s.append(m.as_str());
    s
}

impl Config {
    /// Checks the rules in order and reports the first one broken, naming
    /// the configuration file `path`.
    pub fn validate(&self, path: &str) -> (r: Result<(), ConfigError>)
        ensures
            match config_problem(*self) {
                None => r is Ok,
                Some(m) => r matches Err(ConfigError::Invalid { path: p, message }) && p@ == path@
                    && message@ == m,
            },
    {
        if self.api.port == 0 {
            return Err(invalid(path, String::from_str("api.port must be non-zero")));
        }
        if self.grpc.port == 0 {
            return Err(invalid(path, String::from_str("grpc.port must be non-zero")));
        }
        match check_http_url(self.llm.url.as_str()) {
            Err(m) => return Err(invalid(path, labelled_string("llm.url: ", m))),
            Ok(()) => {},
        }
        match check_http_url(self.stt.url.as_str()) {
            Err(m) => return Err(invalid(path, labelled_string("stt.url: ", m))),
            Ok(()) => {},
        }
        match check_http_url(self.tts.url.as_str()) {
            Err(m) => return Err(invalid(path, labelled_string("tts.url: ", m))),
            Ok(()) => {},
        }
        if self.presence.exit_delay_ms == 0 {
            return Err(invalid(path, String::from_str("presence.exit_delay_ms must be > 0")));
        }
        if only_space(self.wake.keyword.as_str()) {
            return Err(invalid(path, String::from_str("wake.keyword must not be empty")));
        }
        Ok(())
    }

    /// `host:port` of the local API listener.
    pub fn api_addr(&self) -> (r: String)
        ensures
            r@ == self.api.host@ + seq![':'] + decimal(self.api.port as nat),
    {
        host_port(self.api.host.as_str(), self.api.port)
    }

    /// `host:port` of the node gRPC listener.
    pub fn grpc_addr(&self) -> (r: String)
        ensures
            r@ == self.grpc.host@ + seq![':'] + decimal(self.grpc.port as nat),
    {
        host_port(self.grpc.host.as_str(), self.grpc.port)
    }
}

fn host_port(host: &str, port: u16) -> (r: String)
    ensures
        r@ == host@ + seq![':'] + decimal(port as nat),
{
    let mut s = String::from_str(host);
    push_char(&mut s, ':');
    push_decimal(&mut s, port as u64);
    assert(s@ =~= host@ + seq![':'] + decimal(port as nat));
    s
}

/// The shipped configuration passes every startup check.
pub proof fn law_default_config_is_valid(c: Config)
    requires
        is_default_config(c),
    ensures
        config_problem(c) is None,
{
    reveal_strlit("http://127.0.0.1:");
    reveal_strlit("hey home");
    reveal_with_fuel(decimal, 5);
    assert forall|p: u16| p == LLM_PORT || p == STT_PORT || p == TTS_PORT implies url_problem(local_url(p)) is None by {
        let u = local_url(p);
        assert(u.subrange(0, 7) =~= http_scheme());
        assert(decimal(p as nat).len() == 4);
        assert forall|i: int| 0 <= i < u.len() implies !crate::text::is_space(#[trigger] u[i]) by {
            if i >= 17 {
                let d = decimal(p as nat);
                assert(u[i] == d[i - 17]);
            }
        }
    }
    assert(!crate::text::is_space(c.wake.keyword@[0]));
}

} // verus!
