//! Character-level helpers shared by the URL, HTTP and markup modules:
//! classification of ASCII characters, conversions between `String` and
//! `Vec<char>`, and searching/splitting of character sequences, each with an
//! exact specification.

use vstd::prelude::*;
use vstd::string::StrSliceExecFns;

verus! {

/// ASCII whitespace as the markup and header grammars here use it.
pub open spec fn is_space(c: char) -> bool {
    c == ' ' || c == '\t' || c == '\n' || c == '\r'
}

pub fn space_char(c: char) -> (r: bool)
    ensures
        r == is_space(c),
{
    c == ' ' || c == '\t' || c == '\n' || c == '\r'
}

pub open spec fn is_upper(c: char) -> bool {
    65 <= c as u32 <= 90
}

pub open spec fn is_lower(c: char) -> bool {
    97 <= c as u32 <= 122
}

pub open spec fn is_alpha(c: char) -> bool {
    is_upper(c) || is_lower(c)
}

pub open spec fn is_digit(c: char) -> bool {
    48 <= c as u32 <= 57
}

pub fn upper_char(c: char) -> (r: bool)
    ensures
        r == is_upper(c),
{
    let u = c as u32;
    65 <= u && u <= 90
}

pub fn alpha_char(c: char) -> (r: bool)
    ensures
        r == is_alpha(c),
{
    let u = c as u32;
    (65 <= u && u <= 90) || (97 <= u && u <= 122)
}

pub fn digit_char(c: char) -> (r: bool)
    ensures
        r == is_digit(c),
{
    let u = c as u32;
    48 <= u && u <= 57
}

/// An upper-case ASCII letter mapped to lower case; every other character kept.
pub open spec fn lower_char(c: char) -> char {
    if is_upper(c) {
        ((c as u32 + 32) as u8) as char
    } else {
        c
    }
}

pub fn to_lower(c: char) -> (r: char)
    ensures
        r == lower_char(c),
{
    let u = c as u32;
    if 65 <= u && u <= 90 {
        ((u + 32) as u8) as char
    } else {
        c
    }
}

/// Relies on `String::push`: it appends the given character to the end of the
/// string.
#[verifier::external_body]
pub fn push_char(s: &mut String, c: char)
    ensures
        final(s)@ == old(s)@.push(c),
{
    s.push(c);
}

/// The characters of `v`, as a `String`.
pub fn string_of(v: &Vec<char>) -> (r: String)
    ensures
        r@ == v@,
{
    let mut s = String::new();
    let mut i: usize = 0;
    while i < v.len()
        invariant
            i <= v@.len(),
            s@ =~= v@.take(i as int),
        decreases v@.len() - i,
    {
        push_char(&mut s, v[i]);
        proof {
            assert(s@ =~= v@.take(i + 1));
        }
        i = i + 1;
    }
    proof {
        assert(s@ =~= v@);
    }
    s
}

/// The characters of `s`, as a `Vec<char>`.
pub fn chars_of(s: &str) -> (r: Vec<char>)
    ensures
        r@ == s@,
{
    let n = s.unicode_len();
    let mut v: Vec<char> = Vec::new();
    let mut i: usize = 0;
    while i < n
        invariant
            i <= n,
            n == s@.len(),
            v@ =~= s@.take(i as int),
        decreases n - i,
    {
        v.push(s.get_char(i));
        proof {
            assert(v@ =~= s@.take(i + 1));
        }
        i = i + 1;
    }
    proof {
        assert(v@ =~= s@);
    }
    v
}

/// The characters `s[a..b]`, as a fresh vector.
pub fn subvec(s: &Vec<char>, a: usize, b: usize) -> (r: Vec<char>)
    requires
        a <= b <= s@.len(),
    ensures
        r@ == s@.subrange(a as int, b as int),
{
    let mut r: Vec<char> = Vec::new();
    let mut i: usize = a;
    while i < b
        invariant
            a <= i <= b <= s@.len(),
            r@ =~= s@.subrange(a as int, i as int),
        decreases b - i,
    {
        r.push(s[i]);
        proof {
            assert(r@ =~= s@.subrange(a as int, i + 1));
        }
        i = i + 1;
    }
    proof {
        assert(r@ =~= s@.subrange(a as int, b as int));
    }
    r
}

/// Index of the first occurrence of `c` in `s`; the length of `s` when `c`
/// does not occur.
pub open spec fn find_char(s: Seq<char>, c: char) -> int
    decreases s.len(),
{
    if s.len() == 0 {
        0
    } else if s[0] == c {
        0
    } else {
        1 + find_char(s.drop_first(), c)
    }
}

pub proof fn lemma_find_char(s: Seq<char>, c: char)
    ensures
        0 <= find_char(s, c) <= s.len(),
        find_char(s, c) < s.len() ==> s[find_char(s, c)] == c,
        forall|j: int| 0 <= j < find_char(s, c) ==> s[j] != c,
    decreases s.len(),
{
    if s.len() == 0 {
    } else if s[0] == c {
    } else {
        lemma_find_char(s.drop_first(), c);
        let r = find_char(s, c);
        if r < s.len() {
            assert(s[r] == s.drop_first()[r - 1]);
        }
        assert forall|j: int| 0 <= j < r implies s[j] != c by {
            if j > 0 {
                assert(s[j] == s.drop_first()[j - 1]);
            }
        }
    }
}

pub proof fn lemma_find_char_unique(s: Seq<char>, c: char, k: int)
    requires
        0 <= k <= s.len(),
        forall|j: int| 0 <= j < k ==> s[j] != c,
        k < s.len() ==> s[k] == c,
    ensures
        find_char(s, c) == k,
    decreases s.len(),
{
    if s.len() == 0 {
    } else if s[0] == c {
        if k > 0 {
            assert(s[0] != c);
        }
    } else {
        assert(k >= 1);
        assert forall|j: int| 0 <= j < k - 1 implies s.drop_first()[j] != c by {
            assert(s.drop_first()[j] == s[j + 1]);
        }
        if k - 1 < s.len() - 1 {
            assert(s.drop_first()[k - 1] == s[k]);
        }
        lemma_find_char_unique(s.drop_first(), c, k - 1);
    }
}

/// Index of the first occurrence of `c` in `s` at or after `from`; the length
/// of `s` when there is none.
pub fn find_char_from(s: &Vec<char>, c: char, from: usize) -> (r: usize)
    requires
        from <= s@.len(),
    ensures
        from <= r <= s@.len(),
        r < s@.len() ==> s@[r as int] == c,
        forall|j: int| from <= j < r ==> s@[j] != c,
        r - from == find_char(s@.skip(from as int), c),
{
    let mut i: usize = from;
    while i < s.len()
        invariant
            from <= i <= s@.len(),
            forall|j: int| from <= j < i ==> s@[j] != c,
        decreases s@.len() - i,
    {
        if s[i] == c {
            proof {
                lemma_skip_find_char(s@, c, from as int, i as int);
            }
            return i;
        }
        i = i + 1;
    }
    proof {
        lemma_skip_find_char(s@, c, from as int, s@.len() as int);
    }
    s.len()
}

proof fn lemma_skip_find_char(s: Seq<char>, c: char, from: int, k: int)
    requires
        0 <= from <= k <= s.len(),
        forall|j: int| from <= j < k ==> s[j] != c,
        k < s.len() ==> s[k] == c,
    ensures
        find_char(s.skip(from), c) == k - from,
{
    let t = s.skip(from);
    assert forall|j: int| 0 <= j < k - from implies t[j] != c by {
        assert(t[j] == s[j + from]);
    }
    if k < s.len() {
        assert(t[k - from] == s[k]);
    }
    lemma_find_char_unique(t, c, k - from);
}

/// Whether `p` occurs in `s` starting at index `i`.
pub open spec fn sub_at(s: Seq<char>, p: Seq<char>, i: int) -> bool {
    0 <= i && i + p.len() <= s.len() && s.subrange(i, i + p.len() as int) == p
}

pub open spec fn has_sub(s: Seq<char>, p: Seq<char>) -> bool {
    exists|i: int| sub_at(s, p, i)
}

/// Index of the first occurrence of `p` in `s`; one past the length of `s`
/// when `p` does not occur.
pub open spec fn find_sub(s: Seq<char>, p: Seq<char>) -> int
    decreases s.len(),
{
    if sub_at(s, p, 0) {
        0
    } else if s.len() == 0 {
        1
    } else {
        1 + find_sub(s.drop_first(), p)
    }
}

proof fn lemma_sub_at_shift(s: Seq<char>, p: Seq<char>, j: int)
    requires
        s.len() > 0,
        j >= 0,
    ensures
        sub_at(s, p, j + 1) == sub_at(s.drop_first(), p, j),
{
    if j + 1 + p.len() <= s.len() {
        assert(s.drop_first().subrange(j, j + p.len() as int) =~= s.subrange(
            j + 1,
            j + 1 + p.len() as int,
        ));
    }
}

pub proof fn lemma_find_sub_unique(s: Seq<char>, p: Seq<char>, k: int)
    requires
        sub_at(s, p, k),
        forall|j: int| 0 <= j < k ==> !sub_at(s, p, j),
    ensures
        find_sub(s, p) == k,
    decreases s.len(),
{
    if sub_at(s, p, 0) {
        if k > 0 {
            assert(!sub_at(s, p, 0));
        }
    } else {
        assert(k >= 1);
        assert(s.len() > 0);
        lemma_sub_at_shift(s, p, k - 1);
        assert forall|j: int| 0 <= j < k - 1 implies !sub_at(s.drop_first(), p, j) by {
            lemma_sub_at_shift(s, p, j);
        }
        lemma_find_sub_unique(s.drop_first(), p, k - 1);
    }
}

pub proof fn lemma_find_sub_absent(s: Seq<char>, p: Seq<char>)
    requires
        forall|j: int| !sub_at(s, p, j),
    ensures
        find_sub(s, p) == s.len() + 1,
    decreases s.len(),
{
    if s.len() == 0 {
    } else {
        assert forall|j: int| !sub_at(s.drop_first(), p, j) implies true by {}
        assert forall|j: int| true implies !sub_at(s.drop_first(), p, j) by {
            if j >= 0 {
                lemma_sub_at_shift(s, p, j);
            }
        }
        lemma_find_sub_absent(s.drop_first(), p);
    }
}

/// Whether `p` occurs in `s` at `i`, decided by comparing the window.
pub fn sub_at_exec(s: &Vec<char>, p: &Vec<char>, i: usize) -> (r: bool)
    requires
        i <= s@.len(),
    ensures
        r == sub_at(s@, p@, i as int),
{
    let n = s.len();
    if p.len() > n - i {
        return false;
    }
    let mut k: usize = 0;
    while k < p.len()
        invariant
            k <= p@.len(),
            n == s@.len(),
            i + p@.len() <= n,
            forall|t: int| 0 <= t < k ==> s@[i + t] == p@[t],
        decreases p@.len() - k,
    {
        if s[i + k] != p[k] {
            proof {
                assert(s@.subrange(i as int, i + p@.len() as int)[k as int] != p@[k as int]);
            }
            return false;
        }
        k = k + 1;
    }
    proof {
        assert(s@.subrange(i as int, i + p@.len() as int) =~= p@);
    }
    true
}

/// Index of the first occurrence of `p` in `s`, or `None` when absent.
pub fn find_sub_vec(s: &Vec<char>, p: &Vec<char>) -> (r: Option<usize>)
    ensures
        match r {
            Some(i) => i <= s@.len() && i as int == find_sub(s@, p@) && sub_at(s@, p@, i as int),
            None => find_sub(s@, p@) == s@.len() + 1 && !has_sub(s@, p@),
        },
{
    let mut i: usize = 0;
    loop
        invariant
            i <= s@.len(),
            forall|j: int| 0 <= j < i ==> !sub_at(s@, p@, j),
        decreases s@.len() - i,
    {
        if sub_at_exec(s, p, i) {
            proof {
                lemma_find_sub_unique(s@, p@, i as int);
            }
            return Some(i);
        }
        if i == s.len() {
            proof {
                assert forall|j: int| true implies !sub_at(s@, p@, j) by {
                    if 0 <= j <= s@.len() {
                        assert(!sub_at(s@, p@, j));
                    }
                }
                lemma_find_sub_absent(s@, p@);
            }
            return None;
        }
        i = i + 1;
    }
}

/// `s` with every copy of the prefix `p` removed from its front.
pub open spec fn drop_prefixes(s: Seq<char>, p: Seq<char>) -> Seq<char>
    decreases s.len(),
{
    if p.len() > 0 && sub_at(s, p, 0) {
        drop_prefixes(s.skip(p.len() as int), p)
    } else {
        s
    }
}

pub fn drop_prefixes_vec(s: &Vec<char>, p: &Vec<char>) -> (r: Vec<char>)
    requires
        p@.len() > 0,
    ensures
        r@ == drop_prefixes(s@, p@),
{
    let mut start: usize = 0;
    let n = s.len();
    proof {
        assert(s@.skip(0) =~= s@);
    }
    loop
        invariant
            start <= s@.len(),
            n == s@.len(),
            p@.len() > 0,
            drop_prefixes(s@.skip(start as int), p@) == drop_prefixes(s@, p@),
        decreases s@.len() - start,
    {
        let ghost tail = s@.skip(start as int);
        if sub_at_exec(s, p, start) {
            proof {
                assert(tail.subrange(0, p@.len() as int) =~= s@.subrange(
                    start as int,
                    start + p@.len() as int,
                ));
                assert(sub_at(tail, p@, 0));
                assert(tail.skip(p@.len() as int) =~= s@.skip(start + p@.len() as int));
            }
            start = start + p.len();
        } else {
            proof {
                if p@.len() <= tail.len() {
                    assert(tail.subrange(0, p@.len() as int) =~= s@.subrange(
                        start as int,
                        start + p@.len() as int,
                    ));
                }
                assert(!sub_at(tail, p@, 0));
                assert(drop_prefixes(tail, p@) == tail);
            }
            return subvec(s, start, s.len());
        }
    }
}

/// `s` split at every occurrence of `c`; empty fields are kept, and a string
/// without `c` is a single field.
pub open spec fn split_char(s: Seq<char>, c: char) -> Seq<Seq<char>>
    decreases s.len(),
{
    let i = find_char(s, c);
    if 0 <= i && i < s.len() {
        seq![s.subrange(0, i)] + split_char(s.skip(i + 1), c)
    } else {
        seq![s]
    }
}

pub fn split_vec(s: &Vec<char>, c: char) -> (r: Vec<Vec<char>>)
    ensures
        r.deep_view() == split_char(s@, c),
{
    let mut r: Vec<Vec<char>> = Vec::new();
    let mut start: usize = 0;
    proof {
        assert(s@.skip(0) =~= s@);
        assert(r.deep_view() =~~= Seq::<Seq<char>>::empty());
        assert(r.deep_view() + split_char(s@, c) =~~= split_char(s@, c));
    }
    loop
        invariant
            start <= s@.len(),
            r.deep_view() + split_char(s@.skip(start as int), c) =~~= split_char(s@, c),
        decreases s@.len() - start,
    {
        let e = find_char_from(s, c, start);
        let field = subvec(s, start, e);
        let ghost prev = r.deep_view();
        let ghost tail = s@.skip(start as int);
        r.push(field);
        proof {
            assert(r.deep_view() =~~= prev.push(field@));
        }
        if e == s.len() {
            proof {
                assert(find_char(tail, c) == tail.len());
                assert(split_char(tail, c) == seq![tail]);
                assert(field@ =~= tail);
                assert(r.deep_view() =~~= prev + seq![tail]);
                assert(r.deep_view() =~~= split_char(s@, c));
            }
            return r;
        }
        proof {
            let i = find_char(tail, c);
            assert(i == e - start);
            assert(0 <= i && i < tail.len());
            assert(split_char(tail, c) == seq![tail.subrange(0, i)] + split_char(
                tail.skip(i + 1),
                c,
            ));
            assert(field@ =~= tail.subrange(0, i));
            assert(tail.skip(i + 1) =~= s@.skip(e + 1));
            assert(r.deep_view() + split_char(s@.skip(e + 1), c) =~~= split_char(s@, c));
        }
        start = e + 1;
    }
}

/// The number of whitespace characters that begin `s`.
pub open spec fn leading_ws(s: Seq<char>) -> int
    decreases s.len(),
{
    if s.len() == 0 || !is_space(s[0]) {
        0
    } else {
        1 + leading_ws(s.drop_first())
    }
}

/// The number of whitespace characters that end `s`.
pub open spec fn trailing_ws(s: Seq<char>) -> int
    decreases s.len(),
{
    if s.len() == 0 || !is_space(s.last()) {
        0
    } else {
        1 + trailing_ws(s.drop_last())
    }
}

/// `s` with leading and trailing whitespace removed.
pub open spec fn trim_seq(s: Seq<char>) -> Seq<char> {
    if leading_ws(s) == s.len() {
        Seq::empty()
    } else {
        s.subrange(leading_ws(s), s.len() - trailing_ws(s))
    }
}

pub proof fn lemma_leading_ws_unique(s: Seq<char>, k: int)
    requires
        0 <= k <= s.len(),
        forall|j: int| 0 <= j < k ==> is_space(s[j]),
        k < s.len() ==> !is_space(s[k]),
    ensures
        leading_ws(s) == k,
    decreases s.len(),
{
    if s.len() == 0 {
    } else if !is_space(s[0]) {
        if k > 0 {
            assert(is_space(s[0]));
        }
    } else {
        assert(k >= 1);
        assert forall|j: int| 0 <= j < k - 1 implies is_space(s.drop_first()[j]) by {
            assert(s.drop_first()[j] == s[j + 1]);
        }
        if k - 1 < s.len() - 1 {
            assert(s.drop_first()[k - 1] == s[k]);
        }
        lemma_leading_ws_unique(s.drop_first(), k - 1);
    }
}

pub proof fn lemma_trailing_ws_unique(s: Seq<char>, k: int)
    requires
        0 <= k <= s.len(),
        forall|j: int| s.len() - k <= j < s.len() ==> is_space(s[j]),
        k < s.len() ==> !is_space(s[s.len() - k - 1]),
    ensures
        trailing_ws(s) == k,
    decreases s.len(),
{
    if s.len() == 0 {
    } else if !is_space(s.last()) {
        if k > 0 {
            assert(is_space(s[s.len() - 1]));
        }
    } else {
        assert(k >= 1);
        let t = s.drop_last();
        assert forall|j: int| t.len() - (k - 1) <= j < t.len() implies is_space(t[j]) by {
            assert(t[j] == s[j]);
        }
        if k - 1 < t.len() {
            assert(t[t.len() - (k - 1) - 1] == s[s.len() - k - 1]);
        }
        lemma_trailing_ws_unique(t, k - 1);
    }
}

/// `s` with leading whitespace removed.
pub open spec fn ltrim_seq(s: Seq<char>) -> Seq<char> {
    if 0 <= leading_ws(s) <= s.len() {
        s.skip(leading_ws(s))
    } else {
        s
    }
}

pub fn ltrim_vec(s: &Vec<char>) -> (r: Vec<char>)
    ensures
        r@ == ltrim_seq(s@),
{
    let mut a: usize = 0;
    while a < s.len() && space_char(s[a])
        invariant
            a <= s@.len(),
            forall|j: int| 0 <= j < a ==> is_space(s@[j]),
        decreases s@.len() - a,
    {
        a = a + 1;
    }
    proof {
        lemma_leading_ws_unique(s@, a as int);
        assert(s@.subrange(a as int, s@.len() as int) =~= s@.skip(a as int));
    }
    subvec(s, a, s.len())
}

/// `s` with surrounding whitespace removed.
pub fn trim_vec(s: &Vec<char>) -> (r: Vec<char>)
    ensures
        r@ == trim_seq(s@),
{
    let mut a: usize = 0;
    while a < s.len() && space_char(s[a])
        invariant
            a <= s@.len(),
            forall|j: int| 0 <= j < a ==> is_space(s@[j]),
        decreases s@.len() - a,
    {
        a = a + 1;
    }
    proof {
        lemma_leading_ws_unique(s@, a as int);
    }
    if a == s.len() {
        let r: Vec<char> = Vec::new();
        proof {
            assert(r@ =~= trim_seq(s@));
        }
        return r;
    }
    let mut b: usize = s.len();
    while b > a && space_char(s[b - 1])
        invariant
            a <= b <= s@.len(),
            forall|j: int| b <= j < s@.len() ==> is_space(s@[j]),
            !is_space(s@[a as int]),
        decreases b,
    {
        b = b - 1;
    }
    proof {
        assert(!is_space(s@[b - 1]));
        lemma_trailing_ws_unique(s@, s@.len() - b);
    }
    subvec(s, a, b)
}

/// `s` with every `\r\n` pair replaced by `\n`, scanning left to right.
pub open spec fn normalize_newlines(s: Seq<char>) -> Seq<char>
    decreases s.len(),
{
    if s.len() >= 2 && s[0] == '\r' && s[1] == '\n' {
        seq!['\n'] + normalize_newlines(s.skip(2))
    } else if s.len() >= 1 {
        seq![s[0]] + normalize_newlines(s.skip(1))
    } else {
        Seq::empty()
    }
}

pub fn normalize_vec(s: &Vec<char>) -> (r: Vec<char>)
    ensures
        r@ == normalize_newlines(s@),
{
    let mut r: Vec<char> = Vec::new();
    let mut i: usize = 0;
    proof {
        assert(s@.skip(0) =~= s@);
        assert(r@ + normalize_newlines(s@) =~= normalize_newlines(s@));
    }
    while i < s.len()
        invariant
            i <= s@.len(),
            r@ + normalize_newlines(s@.skip(i as int)) =~= normalize_newlines(s@),
        decreases s@.len() - i,
    {
        let ghost tail = s@.skip(i as int);
        if s[i] == '\r' && i + 1 < s.len() && s[i + 1] == '\n' {
            proof {
                assert(tail[0] == s@[i as int]);
                assert(tail[1] == s@[i + 1]);
                assert(tail.skip(2) =~= s@.skip(i + 2));
            }
            r.push('\n');
            i = i + 2;
        } else {
            proof {
                assert(tail[0] == s@[i as int]);
                assert(tail.skip(1) =~= s@.skip(i + 1));
            }
            r.push(s[i]);
            i = i + 1;
        }
        proof {
            assert(r@ + normalize_newlines(s@.skip(i as int)) =~= normalize_newlines(s@));
        }
    }
    proof {
        assert(s@.skip(s@.len() as int) =~= Seq::<char>::empty());
        assert(r@ =~= normalize_newlines(s@));
    }
    r
}

/// Whether two string slices hold the same characters.
pub fn str_eq(a: &str, b: &str) -> (r: bool)
    ensures
        r == (a@ == b@),
{
    let na = a.unicode_len();
    let nb = b.unicode_len();
    if na != nb {
        return false;
    }
    let mut i: usize = 0;
    while i < na
        invariant
            i <= na,
            na == a@.len(),
            na == b@.len(),
            forall|j: int| 0 <= j < i ==> a@[j] == b@[j],
        decreases na - i,
    {
        if a.get_char(i) != b.get_char(i) {
            return false;
        }
        i = i + 1;
    }
    proof {
        assert(a@ =~= b@);
    }
    true
}

} // verus!
