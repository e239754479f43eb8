//! The client side of a fetch: what there is to compute. Building the
//! request text is done and specified here; resolving, connecting and moving
//! bytes is the transport's business and happens outside the library, which
//! then gets the raw response text back for `HttpResponse::new`.

use vstd::prelude::*;
use vstd::string::StringExecFns;

verus! {

/// The request text for a path on a host: a GET line and the fixed headers,
/// asking the server to close the stream when the document is done.
pub open spec fn spec_request(host: Seq<char>, path: Seq<char>) -> Seq<char> {
    "GET /"@ + path + " HTTP/1.1\nHost: "@ + host + "\nAccept: text/html\nConnection: close\n\n"@
}

pub struct HttpClient {}

impl HttpClient {
    pub fn new() -> HttpClient {
        HttpClient {  }
    }

    /// The exact text a transport must write to fetch `path` from `host`.
    pub fn request_message(&self, host: &str, path: &str) -> (r: String)
        ensures
            r@ == spec_request(host@, path@),
    {
        let r = String::from_str("GET /").concat(path).concat(" HTTP/1.1\nHost: ").concat(
            host,
        ).concat("\nAccept: text/html\nConnection: close\n\n");
        proof {
            assert(r@ =~= spec_request(host@, path@));
        }
        r
    }
}

} // verus!
