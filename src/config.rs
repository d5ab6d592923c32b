//! The proxy's settings and the upstream endpoints derived from them.
use vstd::prelude::*;
use crate::json::copy_string;
use crate::sse::chars_of;

verus! {

/// The port used when the settings name none.
pub const DEFAULT_PORT: u16 = 3000;

/// Settings of the proxy: the upstream's key and base URL, and the local port.
#[derive(Clone, Debug)]
pub struct Config {
    pub openai_api_key: String,
    pub openai_base_url: String,
    pub port: u16,
}

/// A text without its trailing `/` characters.
pub open spec fn without_trailing_slashes(s: Seq<char>) -> Seq<char>
    decreases s.len(),
{
    if s.len() > 0 && s.last() == '/' {
        without_trailing_slashes(s.drop_last())
    } else {
        s
    }
}

/// The endpoint `path` under a base URL, with the base's trailing slashes removed.
pub open spec fn endpoint(base: Seq<char>, path: Seq<char>) -> Seq<char> {
    without_trailing_slashes(base) + path
}

fn endpoint_url(base: &str, path: &str) -> (r: String)
    ensures
        r@ == endpoint(base@, path@),
{
    let cs = chars_of(base);
    let mut end: usize = cs.len();
    assert(cs@.subrange(0, end as int) =~= cs@);
    while end > 0 && cs[end - 1] == '/'
        invariant
            end <= cs@.len(),
            without_trailing_slashes(cs@) == without_trailing_slashes(cs@.subrange(0, end as int)),
        decreases end,
    {
        assert(cs@.subrange(0, end as int).drop_last() =~= cs@.subrange(0, end as int - 1));
        end = end - 1;
    }
    proof {
        assert(cs@ == base@);
    }
    String::from_str(base.substring_char(0, end)).concat(path)
}

impl Config {
    /// Settings with the port defaulting to 3000.
    pub fn new(openai_api_key: &str, openai_base_url: &str, port: Option<u16>) -> (r: Config)
        ensures
            r.openai_api_key@ == openai_api_key@,
            r.openai_base_url@ == openai_base_url@,
            r.port == match port {
                Some(p) => p,
                None => DEFAULT_PORT,
            },
    {
        Config {
            openai_api_key: copy_string(openai_api_key),
            openai_base_url: copy_string(openai_base_url),
            port: match port {
                Some(p) => p,
                None => DEFAULT_PORT,
            },
        }
    }

    /// The upstream's chat-completions endpoint.
    pub fn chat_completions_url(&self) -> (r: String)
        ensures
            r@ == endpoint(self.openai_base_url@, "/chat/completions"@),
    {
        endpoint_url(self.openai_base_url.as_str(), "/chat/completions")
    }

    /// The upstream's model-listing endpoint, used to check that it can be reached.
    pub fn models_url(&self) -> (r: String)
        ensures
            r@ == endpoint(self.openai_base_url@, "/models"@),
    {
        endpoint_url(self.openai_base_url.as_str(), "/models")
    }

    /// The value of the `Authorization` header for the upstream.
    pub fn authorization(&self) -> (r: String)
        ensures
            r@ == "Bearer "@ + self.openai_api_key@,
    {
        String::from_str("Bearer ").concat(self.openai_api_key.as_str())
    }
}

} // verus!
