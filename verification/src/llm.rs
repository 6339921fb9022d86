//! The language model service: which providers are supported and where a
//! completion request goes.
use vstd::prelude::*;
use crate::text::{append_chars, from_chars, str_eq, to_chars, trim_end_matches, trim_end_matches_exec};

verus! {

/// A provider other than Ollama.
#[derive(Debug, Clone, Copy, PartialEq, Eq, Structural)]
pub struct UnsupportedProvider;

/// Only the `ollama` provider is supported.
pub fn check_provider(provider: &str) -> (r: Result<(), UnsupportedProvider>)
    ensures
        r is Ok <==> provider@ == "ollama"@,
{
    if str_eq(provider, "ollama") {
        Ok(())
    } else {
        Err(UnsupportedProvider)
    }
}

/// The generation endpoint of an Ollama server: its address without
/// trailing slashes, then `/api/generate`.
pub open spec fn spec_ollama_endpoint(url: Seq<char>) -> Seq<char> {
    trim_end_matches(url, "/"@) + "/api/generate"@
}

/// The generation endpoint of an Ollama server.
pub fn ollama_endpoint(url: &str) -> (r: String)
    ensures
        r@ == spec_ollama_endpoint(url@),
{
    let slash = to_chars("/");
    proof {
        reveal_strlit("/");
    }
    let u = to_chars(url);
    let mut out = trim_end_matches_exec(u.as_slice(), slash.as_slice());
    let tail = to_chars("/api/generate");
    append_chars(&mut out, tail.as_slice());
    from_chars(out.as_slice())
}

/// A trailing slash on the server address does not change the endpoint.
pub proof fn law_endpoint_ignores_trailing_slash(url: Seq<char>)
    ensures
        spec_ollama_endpoint(url + "/"@) == spec_ollama_endpoint(url),
{
    reveal_strlit("/");
    crate::text::lemma_trim_end_matches_append(url, "/"@);
}

} // verus!
