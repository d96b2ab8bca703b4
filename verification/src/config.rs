//! Settings read from the environment: where the proxy listens, where it
//! forwards to, and what the tests against a live service use.
//!
//! The environment itself is read by the program; this module decides what the
//! values it found (or did not find) mean.
use vstd::prelude::*;
use vstd::string::*;

verus! {

/// The address the proxy listens on when `DECOMPRESSOR_LISTEN_ADDR` is not set.
pub open spec fn default_listen_addr() -> Seq<char> {
    "0.0.0.0:5505"@
}

/// The upstream service when `DECOMPRESSOR_UPSTREAM_URL` is not set.
pub open spec fn default_upstream_url() -> Seq<char> {
    "http://127.0.0.1:8080"@
}

/// What `Url::parse` of the `url` crate gives for `input`: the serialization of
/// the URL, or the text of the parse error.
pub uninterp spec fn url_parse(input: Seq<char>) -> Result<Seq<char>, Seq<char>>;

/// `Url::parse` of the `url` crate. The result is a function of the text; what
/// it is, this contract leaves to the `url` crate.
#[verifier::external_body]
fn parse_url(input: &str) -> (r: Result<String, String>)
    ensures
        match r {
            Ok(url) => url_parse(input@) == Ok::<Seq<char>, Seq<char>>(url@),
            Err(error) => url_parse(input@) == Err::<Seq<char>, Seq<char>>(error@),
        },
{
    match reqwest::Url::parse(input) {
        Ok(url) => Ok(url.to_string()),
        Err(error) => Err(error.to_string()),
    }
}

#[derive(Debug)]
pub enum ConfigError {
    InvalidListenAddr,
    InvalidUpstreamUrl(String),
    MissingVar(&'static str),
}

/// The text that reports each error.
pub open spec fn config_message(error: ConfigError) -> Seq<char> {
    match error {
        ConfigError::InvalidListenAddr => "invalid DECOMPRESSOR_LISTEN_ADDR"@,
        ConfigError::InvalidUpstreamUrl(text) => "invalid DECOMPRESSOR_UPSTREAM_URL: "@ + text@,
        ConfigError::MissingVar(name) => "missing "@ + name@ + " in environment"@,
    }
}

impl ConfigError {
    /// The text that reports the error.
    pub fn message(&self) -> (r: String)
        ensures
            r@ == config_message(*self),
    {
        match self {
            ConfigError::InvalidListenAddr => String::from_str("invalid DECOMPRESSOR_LISTEN_ADDR"),
            ConfigError::InvalidUpstreamUrl(error) => {
                let mut text = String::from_str("invalid DECOMPRESSOR_UPSTREAM_URL: ");
                text.append(error.as_str());
                text
            },
            ConfigError::MissingVar(name) => {
                let mut text = String::from_str("missing ");
                text.append(name);
                text.append(" in environment");
                text
            },
        }
    }
}

/// The listen address: the value of `DECOMPRESSOR_LISTEN_ADDR` when it is set,
/// else the default.
pub fn listen_addr_or_default(var: Option<String>) -> (r: String)
    ensures
        r@ == match var {
            Some(v) => v@,
            None => default_listen_addr(),
        },
{
    match var {
        Some(v) => v,
        None => String::from_str("0.0.0.0:5505"),
    }
}

/// The upstream base URL: the value of `DECOMPRESSOR_UPSTREAM_URL` (or the
/// default) read as an absolute URL, in its serialized form.
pub fn upstream_url_from_var(var: Option<String>) -> (r: Result<String, ConfigError>)
    ensures
        ({
            let text = match var {
                Some(v) => v@,
                None => default_upstream_url(),
            };
            match url_parse(text) {
                Ok(url) => r matches Ok(s) && s@ == url,
                Err(error) => r matches Err(ConfigError::InvalidUpstreamUrl(s)) && s@ == error,
            }
        }),
{
    let text = match var {
        Some(v) => v,
        None => String::from_str("http://127.0.0.1:8080"),
    };
    match parse_url(text.as_str()) {
        Ok(url) => Ok(url),
        Err(error) => Err(ConfigError::InvalidUpstreamUrl(error)),
    }
}

/// The settings of the tests that talk to a live service.
#[derive(Clone, Debug)]
pub struct TestConfig {
    pub api_base: String,
    pub api_key: String,
    pub model: String,
}

impl TestConfig {
    /// The settings from the values of `TEST_API_BASE`, `TEST_API_KEY` and
    /// `TEST_MODEL`; the first of them that is missing is reported.
    pub fn from_vars(api_base: Option<String>, api_key: Option<String>, model: Option<String>) -> (r:
        Result<TestConfig, ConfigError>)
        ensures
            match (api_base, api_key, model) {
                (Some(b), Some(k), Some(m)) => r matches Ok(c) && c.api_base == b && c.api_key
                    == k && c.model == m,
                (None, _, _) => r matches Err(ConfigError::MissingVar(n)) && n@
                    == "TEST_API_BASE"@,
                (Some(_), None, _) => r matches Err(ConfigError::MissingVar(n)) && n@
                    == "TEST_API_KEY"@,
                (Some(_), Some(_), None) => r matches Err(ConfigError::MissingVar(n)) && n@
                    == "TEST_MODEL"@,
            },
    {
        let api_base = match api_base {
            Some(v) => v,
            None => {
                return Err(ConfigError::MissingVar("TEST_API_BASE"));
            },
        };
        let api_key = match api_key {
            Some(v) => v,
            None => {
                return Err(ConfigError::MissingVar("TEST_API_KEY"));
            },
        };
        let model = match model {
            Some(v) => v,
            None => {
                return Err(ConfigError::MissingVar("TEST_MODEL"));
            },
        };
        Ok(TestConfig { api_base, api_key, model })
    }
}

} // verus!
