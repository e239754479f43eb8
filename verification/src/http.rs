//! The transport-level response envelope: a raw response text is split into
//! status line, headers and body on the first blank line, after normalising
//! line endings. A response without that separator, with a short status line
//! or with a header line lacking a colon is rejected as malformed.

use vstd::prelude::*;
use vstd::string::StringExecFns;
use crate::error::Error;
use crate::text::{
    chars_of, digit_char, find_char, find_char_from, find_sub, find_sub_vec, has_sub, is_digit,
    ltrim_seq, ltrim_vec, normalize_newlines, normalize_vec, split_char, split_vec, string_of,
    str_eq, subvec, trim_seq, trim_vec,
};

verus! {

/// The blank-line separator between the head of a response and its body.
pub open spec fn blank_line() -> Seq<char> {
    seq!['\n', '\n']
}

/// Raw response text as the envelope parser sees it: leading whitespace
/// dropped and `\r\n` line endings normalised to `\n`.
pub open spec fn preprocess(raw: Seq<char>) -> Seq<char> {
    normalize_newlines(ltrim_seq(raw))
}

/// Everything before the first blank line of the preprocessed text.
pub open spec fn envelope_head(t: Seq<char>) -> Seq<char> {
    let i = find_sub(t, blank_line());
    if 0 <= i <= t.len() {
        t.subrange(0, i)
    } else {
        t
    }
}

/// Everything after the first blank line of the preprocessed text.
pub open spec fn envelope_body(t: Seq<char>) -> Seq<char> {
    let i = find_sub(t, blank_line());
    if 0 <= i && i + 2 <= t.len() {
        t.subrange(i + 2, t.len() as int)
    } else {
        Seq::empty()
    }
}

/// The lines of the head: the status line first, then one line per header.
pub open spec fn head_lines(t: Seq<char>) -> Seq<Seq<char>> {
    split_char(envelope_head(t), '\n')
}

/// The space-separated fields of the status line.
pub open spec fn status_fields(t: Seq<char>) -> Seq<Seq<char>> {
    split_char(head_lines(t)[0], ' ')
}

/// The header lines of the head (everything after the status line).
pub open spec fn header_lines(t: Seq<char>) -> Seq<Seq<char>> {
    head_lines(t).drop_first()
}

/// A preprocessed response is well formed when the blank-line separator is
/// there, the status line has version, code and reason, and every header
/// line has a colon. The last two are a decided policy: such responses have
/// no defensible reading, and since nothing here may crash on them, they are
/// reported as the same malformed-envelope error as a missing separator.
pub open spec fn envelope_wf(t: Seq<char>) -> bool {
    &&& has_sub(t, blank_line())
    &&& status_fields(t).len() >= 3
    &&& forall|i: int|
        0 <= i < header_lines(t).len() ==> find_char(#[trigger] header_lines(t)[i], ':')
            < header_lines(t)[i].len()
}

pub open spec fn spec_version(t: Seq<char>) -> Seq<char> {
    status_fields(t)[0]
}

pub open spec fn spec_reason(t: Seq<char>) -> Seq<char> {
    status_fields(t)[2]
}

/// Whether `s` is one or more decimal digits.
pub open spec fn all_digits(s: Seq<char>) -> bool {
    s.len() > 0 && forall|i: int| 0 <= i < s.len() ==> is_digit(#[trigger] s[i])
}

/// The value of a digit string, most significant digit first.
pub open spec fn digits_val(s: Seq<char>) -> int
    decreases s.len(),
{
    if s.len() == 0 {
        0
    } else {
        digits_val(s.drop_last()) * 10 + (s.last() as u32 - 48)
    }
}

/// The status code of the preprocessed text: the numeric value of the second
/// status-line field, or 404 when that field is not a number a status code
/// can hold.
pub open spec fn spec_status_code(t: Seq<char>) -> u16 {
    let f = status_fields(t)[1];
    if all_digits(f) && digits_val(f) <= 65535 {
        digits_val(f) as u16
    } else {
        404
    }
}

/// A header line split at its first colon, both sides trimmed.
pub open spec fn header_pair(l: Seq<char>) -> (Seq<char>, Seq<char>) {
    let i = find_char(l, ':');
    if 0 <= i < l.len() {
        (trim_seq(l.subrange(0, i)), trim_seq(l.subrange(i + 1, l.len() as int)))
    } else {
        (trim_seq(l), Seq::empty())
    }
}

/// Every line of `ls` as a trimmed name/value pair.
pub open spec fn header_pairs(ls: Seq<Seq<char>>) -> Seq<(Seq<char>, Seq<char>)> {
    ls.map_values(|l: Seq<char>| header_pair(l))
}

pub open spec fn spec_headers(t: Seq<char>) -> Seq<(Seq<char>, Seq<char>)> {
    header_pairs(header_lines(t))
}

pub open spec fn spec_body(t: Seq<char>) -> Seq<char> {
    envelope_body(t)
}

/// The message reported for a malformed envelope.
pub open spec fn invalid_msg(t: Seq<char>) -> Seq<char> {
    "invalid http response: "@ + t
}

/// One response header: a name and a value.
#[derive(Debug, Clone)]
pub struct Header {
    pub name: String,
    pub value: String,
}

impl Header {
    pub fn new(name: String, value: String) -> (r: Header)
        ensures
            r.name == name,
            r.value == value,
    {
        Header { name, value }
    }
}

/// The name/value views of a header sequence.
pub open spec fn headers_view(hs: Seq<Header>) -> Seq<(Seq<char>, Seq<char>)> {
    hs.map_values(|h: Header| (h.name@, h.value@))
}

/// Index of the first header named `name`; the length of `hs` when none is.
pub open spec fn find_header(hs: Seq<Header>, name: Seq<char>) -> int
    decreases hs.len(),
{
    if hs.len() == 0 {
        0
    } else if hs[0].name@ == name {
        0
    } else {
        1 + find_header(hs.drop_first(), name)
    }
}

proof fn lemma_headers_view_push(hs: Seq<Header>, h: Header)
    ensures
        headers_view(hs.push(h)) =~= headers_view(hs).push((h.name@, h.value@)),
{
    assert forall|j: int| 0 <= j < hs.len() + 1 implies headers_view(hs.push(h))[j]
        == headers_view(hs).push((h.name@, h.value@))[j] by {
        if j < hs.len() {
            assert(hs.push(h)[j] == hs[j]);
        } else {
            assert(hs.push(h)[j] == h);
        }
    }
}

proof fn lemma_header_pairs_snoc(ls: Seq<Seq<char>>, k: int)
    requires
        0 <= k < ls.len(),
    ensures
        header_pairs(ls.subrange(0, k + 1)) =~= header_pairs(ls.subrange(0, k)).push(
            header_pair(ls[k]),
        ),
{
    assert forall|j: int| 0 <= j < k + 1 implies header_pairs(ls.subrange(0, k + 1))[j]
        == header_pairs(ls.subrange(0, k)).push(header_pair(ls[k]))[j] by {
        assert(ls.subrange(0, k + 1)[j] == ls[j]);
        if j < k {
            assert(ls.subrange(0, k)[j] == ls[j]);
        }
    }
}

proof fn lemma_find_header_unique(hs: Seq<Header>, name: Seq<char>, k: int)
    requires
        0 <= k <= hs.len(),
        forall|j: int| 0 <= j < k ==> hs[j].name@ != name,
        k < hs.len() ==> hs[k].name@ == name,
    ensures
        find_header(hs, name) == k,
    decreases hs.len(),
{
    if hs.len() == 0 {
    } else if hs[0].name@ == name {
        if k > 0 {
            assert(hs[0].name@ != name);
        }
    } else {
        assert(k >= 1);
        assert forall|j: int| 0 <= j < k - 1 implies hs.drop_first()[j].name@ != name by {
            assert(hs.drop_first()[j] == hs[j + 1]);
        }
        if k - 1 < hs.len() - 1 {
            assert(hs.drop_first()[k - 1] == hs[k]);
        }
        lemma_find_header_unique(hs.drop_first(), name, k - 1);
    }
}

/// A parsed response envelope.
#[derive(Debug, Clone)]
pub struct HttpResponse {
    pub version: String,
    pub status_code: u16,
    pub reason: String,
    pub headers: Vec<Header>,
    pub body: String,
}

impl HttpResponse {
    /// Parses raw response text. The result is `Ok` exactly when the
    /// preprocessed text is a well-formed envelope, and then carries the
    /// fields that the specification functions name; otherwise the whole
    /// preprocessed text is reported in a network error.
    #[verifier::loop_isolation(false)]
    pub fn new(raw_response: String) -> (r: Result<HttpResponse, Error>)
        ensures
            r is Ok <==> envelope_wf(preprocess(raw_response@)),
            r matches Ok(resp) ==> {
                let t = preprocess(raw_response@);
                &&& resp.version@ == spec_version(t)
                &&& resp.status_code == spec_status_code(t)
                &&& resp.reason@ == spec_reason(t)
                &&& headers_view(resp.headers@) == spec_headers(t)
                &&& resp.body@ == spec_body(t)
            },
            r matches Err(e) ==> (e matches Error::Network(m) && m@ == invalid_msg(
                preprocess(raw_response@),
            )),
    {
        let raw = chars_of(raw_response.as_str());
        let t = normalize_vec(&ltrim_vec(&raw));
        let mut sep_pat: Vec<char> = Vec::new();
        sep_pat.push('\n');
        sep_pat.push('\n');
        proof {
            assert(sep_pat@ =~= blank_line());
        }
        let sep = match find_sub_vec(&t, &sep_pat) {
            Some(i) => i,
            None => {
                return Err(Error::Network(invalid_message(&t)));
            },
        };
        let n = t.len();
        proof {
            assert(sep + 2 <= n);
        }
        let head = subvec(&t, 0, sep);
        let body = subvec(&t, sep + 2, n);
        proof {
            assert(head@ == envelope_head(t@));
            assert(body@ == envelope_body(t@));
        }
        let lines = split_vec(&head, '\n');
        proof {
            lemma_split_never_empty(head@, '\n');
            assert(lines.deep_view()[0] == lines@[0]@);
        }
        let fields = split_vec(&lines[0], ' ');
        if fields.len() < 3 {
            return Err(Error::Network(invalid_message(&t)));
        }
        proof {
            assert(fields.deep_view()[0] == fields@[0]@);
            assert(fields.deep_view()[1] == fields@[1]@);
            assert(fields.deep_view()[2] == fields@[2]@);
        }
        let mut headers: Vec<Header> = Vec::new();
        let mut k: usize = 1;
        while k < lines.len()
            invariant
                1 <= k <= lines@.len(),
                lines.deep_view() == head_lines(t@),
                headers_view(headers@) =~~= header_pairs(header_lines(t@).subrange(0, k - 1)),
                forall|j: int|
                    0 <= j < k - 1 ==> find_char(#[trigger] header_lines(t@)[j], ':')
                        < header_lines(t@)[j].len(),
            decreases lines@.len() - k,
        {
            let ghost line_view = header_lines(t@)[k - 1];
            proof {
                assert(lines.deep_view()[k as int] == lines@[k as int]@);
                assert(lines@[k as int]@ == line_view);
            }
            let colon = find_char_from(&lines[k], ':', 0);
            proof {
                assert(lines@[k as int]@.skip(0) =~= lines@[k as int]@);
            }
            if colon == lines[k].len() {
                proof {
                    assert(find_char(line_view, ':') == line_view.len());
                    assert(!envelope_wf(t@));
                }
                return Err(Error::Network(invalid_message(&t)));
            }
            let name = trim_vec(&subvec(&lines[k], 0, colon));
            let value = trim_vec(&subvec(&lines[k], colon + 1, lines[k].len()));
            let hdr = Header::new(string_of(&name), string_of(&value));
            let ghost hv = hdr;
            let ghost prev = headers@;
            headers.push(hdr);
            proof {
                assert((hv.name@, hv.value@) == header_pair(line_view));
                lemma_headers_view_push(prev, hv);
                lemma_header_pairs_snoc(header_lines(t@), k - 1);
                assert(headers_view(headers@) =~~= header_pairs(
                    header_lines(t@).subrange(0, k as int),
                ));
            }
            k = k + 1;
        }
        proof {
            assert(header_lines(t@).subrange(0, header_lines(t@).len() as int) =~= header_lines(
                t@,
            ));
            assert(headers_view(headers@) =~~= spec_headers(t@));
            assert(envelope_wf(t@));
        }
        let code = parse_status(&fields[1]);
        Ok(
            HttpResponse {
                version: string_of(&fields[0]),
                status_code: code,
                reason: string_of(&fields[2]),
                headers,
                body: string_of(&body),
            },
        )
    }

    pub fn version(&self) -> (r: String)
        ensures
            r == self.version,
    {
        self.version.clone()
    }

    pub fn status_code(&self) -> (r: u16)
        ensures
            r == self.status_code,
    {
        self.status_code
    }

    pub fn reason(&self) -> (r: String)
        ensures
            r == self.reason,
    {
        self.reason.clone()
    }

    pub fn headers(&self) -> (r: &Vec<Header>)
        ensures
            *r == self.headers,
    {
        &self.headers
    }

    pub fn body(&self) -> (r: String)
        ensures
            r == self.body,
    {
        self.body.clone()
    }

    /// The value of the first header named `name`, or a not-found message.
    pub fn header_value(&self, name: &str) -> (r: Result<String, String>)
        ensures
            r is Ok <==> exists|i: int|
                0 <= i < self.headers@.len() && (#[trigger] self.headers@[i].name)@ == name@,
            r matches Ok(v) ==> find_header(self.headers@, name@) < self.headers@.len() && v@
                == self.headers@[find_header(self.headers@, name@)].value@,
            r matches Err(m) ==> m@ == "failed to find "@ + name@ + " in headers"@,
    {
        let mut i: usize = 0;
        while i < self.headers.len()
            invariant
                i <= self.headers@.len(),
                forall|j: int| 0 <= j < i ==> (#[trigger] self.headers@[j].name)@ != name@,
            decreases self.headers@.len() - i,
        {
            if str_eq(self.headers[i].name.as_str(), name) {
                proof {
                    lemma_find_header_unique(self.headers@, name@, i as int);
                }
                return Ok(self.headers[i].value.clone());
            }
            i = i + 1;
        }
        let mut m = String::from_str("failed to find ");
        m.append(name);
        m.append(" in headers");
        Err(m)
    }
}

proof fn lemma_split_never_empty(s: Seq<char>, c: char)
    ensures
        split_char(s, c).len() >= 1,
{
    let i = find_char(s, c);
    if 0 <= i && i < s.len() {
    } else {
    }
}

/// The malformed-envelope message carrying the preprocessed text.
fn invalid_message(t: &Vec<char>) -> (r: String)
    ensures
        r@ == invalid_msg(t@),
{
    let mut m = String::from_str("invalid http response: ");
    m.append(string_of(t).as_str());
    m
}

proof fn lemma_digits_val_bounds(s: Seq<char>)
    requires
        forall|i: int| 0 <= i < s.len() ==> is_digit(#[trigger] s[i]),
    ensures
        digits_val(s) >= 0,
        s.len() > 0 ==> digits_val(s) >= digits_val(s.drop_last()),
    decreases s.len(),
{
    if s.len() > 0 {
        assert forall|i: int| 0 <= i < s.drop_last().len() implies is_digit(
            #[trigger] s.drop_last()[i],
        ) by {
            assert(s.drop_last()[i] == s[i]);
        }
        lemma_digits_val_bounds(s.drop_last());
        assert(is_digit(s.last()));
    }
}

proof fn lemma_digits_val_prefix(s: Seq<char>, k: int)
    requires
        forall|i: int| 0 <= i < s.len() ==> is_digit(#[trigger] s[i]),
        0 <= k <= s.len(),
    ensures
        digits_val(s.subrange(0, k)) <= digits_val(s),
    decreases s.len() - k,
{
    if k == s.len() {
        assert(s.subrange(0, k) =~= s);
    } else {
        lemma_digits_val_prefix(s, k + 1);
        let p = s.subrange(0, k + 1);
        assert forall|i: int| 0 <= i < p.len() implies is_digit(#[trigger] p[i]) by {
            assert(p[i] == s[i]);
        }
        lemma_digits_val_bounds(p);
        assert(p.drop_last() =~= s.subrange(0, k));
    }
}

/// The numeric value of a status-code field, with 404 for anything that is
/// not a plain number a status code can hold.
fn parse_status(v: &Vec<char>) -> (r: u16)
    ensures
        all_digits(v@) && digits_val(v@) <= 65535 ==> r as int == digits_val(v@),
        !(all_digits(v@) && digits_val(v@) <= 65535) ==> r == 404,
{
    if v.len() == 0 {
        return 404;
    }
    let mut acc: u32 = 0;
    let mut i: usize = 0;
    while i < v.len()
        invariant
            i <= v@.len(),
            v@.len() > 0,
            acc <= 65535,
            forall|j: int| 0 <= j < i ==> is_digit(#[trigger] v@[j]),
            acc as int == digits_val(v@.subrange(0, i as int)),
        decreases v@.len() - i,
    {
        let c = v[i];
        if !digit_char(c) {
            return 404;
        }
        let d: u32 = c as u32 - 48;
        proof {
            assert(v@.subrange(0, i + 1).drop_last() =~= v@.subrange(0, i as int));
            assert(v@.subrange(0, i + 1).last() == v@[i as int]);
        }
        acc = acc * 10 + d;
        i = i + 1;
        if acc > 65535 {
            proof {
                assert forall|j: int| 0 <= j < v@.len() implies is_digit(#[trigger] v@[j]) || !(
                all_digits(v@)) by {}
                if all_digits(v@) {
                    lemma_digits_val_prefix(v@, i as int);
                }
            }
            return 404;
        }
    }
    proof {
        assert(v@.subrange(0, v@.len() as int) =~= v@);
    }
    let code: u16 = acc as u16;
    code
}

} // verus!
