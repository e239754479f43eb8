//! Addresses of documents to fetch. Only the `http` scheme is accepted; the
//! host, port, path and query parts are extracted by left-to-right splitting,
//! each part pinned down by a specification function over the character
//! sequence of the address.

use vstd::prelude::*;
use vstd::string::StringExecFns;
use crate::text::{
    chars_of, drop_prefixes, drop_prefixes_vec, find_char, find_char_from, lemma_find_char,
    string_of, sub_at, sub_at_exec, subvec,
};

verus! {

/// The scheme marker that every accepted address must contain.
pub open spec fn http_prefix() -> Seq<char> {
    seq!['h', 't', 't', 'p', ':', '/', '/']
}

/// An address is HTTP when it begins with the scheme marker: only the
/// `http` scheme is accepted.
pub open spec fn is_http_url(u: Seq<char>) -> bool {
    sub_at(u, http_prefix(), 0)
}

/// The address with every leading scheme marker removed.
pub open spec fn url_body(u: Seq<char>) -> Seq<char> {
    drop_prefixes(u, http_prefix())
}

/// The part of the body before the first `/` (the whole body when there is
/// none): host plus optional port.
pub open spec fn url_head(u: Seq<char>) -> Seq<char> {
    let b = url_body(u);
    let i = find_char(b, '/');
    if 0 <= i <= b.len() {
        b.subrange(0, i)
    } else {
        b
    }
}

/// The part of the body after the first `/`; empty when there is none.
pub open spec fn url_rest(u: Seq<char>) -> Seq<char> {
    let b = url_body(u);
    let i = find_char(b, '/');
    if 0 <= i < b.len() {
        b.subrange(i + 1, b.len() as int)
    } else {
        Seq::empty()
    }
}

/// The host: the head up to the first `:`, or the whole head.
pub open spec fn spec_host(u: Seq<char>) -> Seq<char> {
    let h = url_head(u);
    let i = find_char(h, ':');
    if 0 <= i < h.len() {
        h.subrange(0, i)
    } else {
        h
    }
}

/// The port: what follows the first `:` of the head, or `80` when the head
/// names none.
pub open spec fn spec_port(u: Seq<char>) -> Seq<char> {
    let h = url_head(u);
    let i = find_char(h, ':');
    if 0 <= i < h.len() {
        h.subrange(i + 1, h.len() as int)
    } else {
        seq!['8', '0']
    }
}

/// Whether the body has a `/` introducing a path.
pub open spec fn url_has_path(u: Seq<char>) -> bool {
    find_char(url_body(u), '/') < url_body(u).len()
}

/// The path: between the first `/` of the body and the first `?` after it;
/// empty when the body has no `/`.
pub open spec fn spec_path(u: Seq<char>) -> Seq<char> {
    if url_has_path(u) {
        let t = url_rest(u);
        let i = find_char(t, '?');
        if 0 <= i <= t.len() {
            t.subrange(0, i)
        } else {
            t
        }
    } else {
        Seq::empty()
    }
}

/// The query: what follows the first `?` after the path; empty when absent.
pub open spec fn spec_search(u: Seq<char>) -> Seq<char> {
    if url_has_path(u) {
        let t = url_rest(u);
        let i = find_char(t, '?');
        if 0 <= i < t.len() {
            t.subrange(i + 1, t.len() as int)
        } else {
            Seq::empty()
        }
    } else {
        Seq::empty()
    }
}

/// An address together with the parts that `parse` extracted from it.
#[derive(Debug, Clone, PartialEq, Eq)]
pub struct Url {
    pub url: String,
    pub host: String,
    pub port: String,
    pub path: String,
    pub search_part: String,
}

impl Url {
    /// A still-unparsed address: every extracted part starts out empty.
    pub fn new(url: String) -> (r: Url)
        ensures
            r.url@ == url@,
            r.host@ == Seq::<char>::empty(),
            r.port@ == Seq::<char>::empty(),
            r.path@ == Seq::<char>::empty(),
            r.search_part@ == Seq::<char>::empty(),
    {
        Url {
            url,
            host: String::new(),
            port: String::new(),
            path: String::new(),
            search_part: String::new(),
        }
    }

    pub fn url(&self) -> (r: String)
        ensures
            r == self.url,
    {
        self.url.clone()
    }

    pub fn host(&self) -> (r: String)
        ensures
            r == self.host,
    {
        self.host.clone()
    }

    pub fn port(&self) -> (r: String)
        ensures
            r == self.port,
    {
        self.port.clone()
    }

    pub fn path(&self) -> (r: String)
        ensures
            r == self.path,
    {
        self.path.clone()
    }

    pub fn search_part(&self) -> (r: String)
        ensures
            r == self.search_part,
    {
        self.search_part.clone()
    }

    /// Splits the address into host, port, path and query. Any address
    /// without the `http` scheme marker is rejected unchanged.
    pub fn parse(&mut self) -> (r: Result<Url, String>)
        ensures
            final(self).url == old(self).url,
            r is Ok <==> is_http_url(old(self).url@),
            r matches Ok(u) ==> u == *final(self) && final(self).host@ == spec_host(
                old(self).url@,
            ) && final(self).port@ == spec_port(old(self).url@) && final(self).path@ == spec_path(
                old(self).url@,
            ) && final(self).search_part@ == spec_search(old(self).url@),
            r matches Err(m) ==> *final(self) == *old(self) && m@ == "Only HTTP scheme is supported."@,
    {
        if !self.is_http() {
            return Err(String::from_str("Only HTTP scheme is supported."));
        }
        self.host = self.extract_host();
        self.port = self.extract_port();
        self.path = self.extract_path();
        self.search_part = self.extract_search_path();
        Ok(
            Url {
                url: self.url.clone(),
                host: self.host.clone(),
                port: self.port.clone(),
                path: self.path.clone(),
                search_part: self.search_part.clone(),
            },
        )
    }

    /// The head of the address body (host and optional port), as characters.
    fn head_chars(&self) -> (r: Vec<char>)
        ensures
            r@ == url_head(self.url@),
    {
        let u = chars_of(self.url.as_str());
        let p = http_prefix_chars();
        let body = drop_prefixes_vec(&u, &p);
        let slash = find_char_from(&body, '/', 0);
        proof {
            assert(body@.skip(0) =~= body@);
            lemma_find_char(body@, '/');
        }
        subvec(&body, 0, slash)
    }

    /// The rest of the address body (after the first `/`), as characters,
    /// with a flag saying whether a `/` was there at all.
    fn rest_chars(&self) -> (r: (Vec<char>, bool))
        ensures
            r.1 == url_has_path(self.url@),
            r.1 ==> r.0@ == url_rest(self.url@),
    {
        let u = chars_of(self.url.as_str());
        let p = http_prefix_chars();
        let body = drop_prefixes_vec(&u, &p);
        let slash = find_char_from(&body, '/', 0);
        proof {
            assert(body@.skip(0) =~= body@);
            lemma_find_char(body@, '/');
        }
        if slash < body.len() {
            (subvec(&body, slash + 1, body.len()), true)
        } else {
            (Vec::new(), false)
        }
    }

    fn extract_host(&mut self) -> (r: String)
        ensures
            *final(self) == *old(self),
            r@ == spec_host(old(self).url@),
    {
        let head = self.head_chars();
        let colon = find_char_from(&head, ':', 0);
        proof {
            assert(head@.skip(0) =~= head@);
            lemma_find_char(head@, ':');
        }
        if colon < head.len() {
            string_of(&subvec(&head, 0, colon))
        } else {
            proof {
                assert(head@.subrange(0, head@.len() as int) =~= head@);
            }
            string_of(&head)
        }
    }

    fn extract_port(&mut self) -> (r: String)
        ensures
            *final(self) == *old(self),
            r@ == spec_port(old(self).url@),
    {
        let head = self.head_chars();
        let colon = find_char_from(&head, ':', 0);
        proof {
            assert(head@.skip(0) =~= head@);
            lemma_find_char(head@, ':');
        }
        if colon < head.len() {
            string_of(&subvec(&head, colon + 1, head.len()))
        } else {
            let mut p: Vec<char> = Vec::new();
            p.push('8');
            p.push('0');
            proof {
                assert(p@ =~= seq!['8', '0']);
            }
            string_of(&p)
        }
    }

    fn extract_path(&mut self) -> (r: String)
        ensures
            *final(self) == *old(self),
            r@ == spec_path(old(self).url@),
    {
        let (rest, found) = self.rest_chars();
        if !found {
            return String::new();
        }
        let q = find_char_from(&rest, '?', 0);
        proof {
            assert(rest@.skip(0) =~= rest@);
            lemma_find_char(rest@, '?');
        }
        string_of(&subvec(&rest, 0, q))
    }

    fn extract_search_path(&mut self) -> (r: String)
        ensures
            *final(self) == *old(self),
            r@ == spec_search(old(self).url@),
    {
        let (rest, found) = self.rest_chars();
        if !found {
            return String::new();
        }
        let q = find_char_from(&rest, '?', 0);
        proof {
            assert(rest@.skip(0) =~= rest@);
            lemma_find_char(rest@, '?');
        }
        if q < rest.len() {
            string_of(&subvec(&rest, q + 1, rest.len()))
        } else {
            String::new()
        }
    }

    fn is_http(&self) -> (r: bool)
        ensures
            r == is_http_url(self.url@),
    {
        let u = chars_of(self.url.as_str());
        let p = http_prefix_chars();
        sub_at_exec(&u, &p, 0)
    }
}

/// The scheme marker, as a vector of characters.
fn http_prefix_chars() -> (r: Vec<char>)
    ensures
        r@ == http_prefix(),
{
    let mut p: Vec<char> = Vec::new();
    p.push('h');
    p.push('t');
    p.push('t');
    p.push('p');
    p.push(':');
    p.push('/');
    p.push('/');
    proof {
        assert(p@ =~= http_prefix());
    }
    p
}

} // verus!
