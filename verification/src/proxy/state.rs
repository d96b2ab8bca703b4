//! What every proxied request shares: the HTTP client and the upstream base URL.
use vstd::prelude::*;
use vstd::string::*;

verus! {

#[verifier::external_type_specification]
#[verifier::external_body]
pub struct ExClient(reqwest::Client);

#[verifier::external_type_specification]
#[verifier::external_body]
pub struct ExReqwestError(reqwest::Error);

/// `Clone` of `reqwest::Client`: another handle on the same client, which
/// shares its connection pool. Nothing is stated of the handle.
pub assume_specification[ <reqwest::Client as Clone>::clone ](client: &reqwest::Client) -> reqwest::Client;

/// `reqwest::Client::builder().redirect(Policy::none()).build()`: a client that
/// hands redirects back instead of following them. Whether building succeeds
/// depends on the machine (its TLS and resolver set-up), so nothing is promised
/// of the result.
#[verifier::external_body]
fn build_client() -> (r: Result<reqwest::Client, reqwest::Error>) {
    reqwest::Client::builder().redirect(reqwest::redirect::Policy::none()).build()
}

#[derive(Clone)]
pub struct AppState {
    client: reqwest::Client,
    upstream_base_url: String,
}

impl AppState {
    /// The base URL that requests are resolved against.
    pub closed spec fn base_url(&self) -> Seq<char> {
        self.upstream_base_url@
    }

    /// The client that sends requests upstream.
    pub closed spec fn spec_client(&self) -> reqwest::Client {
        self.client
    }

    /// A state with a new client that does not follow redirects. It fails only
    /// where building the client fails.
    pub fn new(upstream_base_url: String) -> (r: Result<AppState, reqwest::Error>)
        ensures
            r matches Ok(state) ==> state.base_url() == upstream_base_url@,
    {
        Self::from_client_result(build_client(), upstream_base_url)
    }

    /// The state for the outcome of building a client: a state with that
    /// client when it was built, else the error of building it.
    pub fn from_client_result(
        client: Result<reqwest::Client, reqwest::Error>,
        upstream_base_url: String,
    ) -> (r: Result<AppState, reqwest::Error>)
        ensures
            match client {
                Ok(c) => r matches Ok(state) && state.base_url() == upstream_base_url@
                    && state.spec_client() == c,
                Err(e) => r == Err::<AppState, reqwest::Error>(e),
            },
    {
        match client {
            Ok(c) => Self::with_client(c, upstream_base_url),
            Err(e) => Err(e),
        }
    }

    /// A state with the given client.
    pub fn with_client(client: reqwest::Client, upstream_base_url: String) -> (r: Result<
        AppState,
        reqwest::Error,
    >)
        ensures
            r matches Ok(state) && state.base_url() == upstream_base_url@ && state.spec_client()
                == client,
    {
        Ok(AppState { client, upstream_base_url })
    }

    pub fn client(&self) -> (r: &reqwest::Client)
        ensures
            *r == self.spec_client(),
    {
        &self.client
    }

    pub fn upstream_base_url(&self) -> (r: &str)
        ensures
            r@ == self.base_url(),
    {
        self.upstream_base_url.as_str()
    }
}

} // verus!
