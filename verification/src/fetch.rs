//! The decisions of a fetch: which requests are sent and how, what a CORS
//! response must carry, and what of a response script may read. The network
//! work itself happens outside the library, between `plan_fetch`,
//! `check_preflight`, and `finish_fetch`.
use vstd::prelude::*;
use crate::script::{FetchCompletion, FetchResponseInit, WebSocketEvent};
use crate::text_util::{
    ascii_lower, ascii_lower_seq, chars_equal, chars_to_ascii_lowercase, chars_to_string, push_str,
    str_equal, str_to_chars, trim_chars, trim_class, TrimClass,
};

verus! {

/// How a fetch sends credentials.
#[derive(Clone, Copy, Debug, PartialEq, Eq, Structural)]
pub enum CredentialsMode {
    Omit,
    SameOrigin,
    Include,
}

/// An HTTP token character (`tchar`).
pub open spec fn is_tchar(c: char) -> bool {
    ||| ('0' <= c && c <= '9')
    ||| ('a' <= c && c <= 'z')
    ||| ('A' <= c && c <= 'Z')
    ||| c == '!' || c == '#' || c == '$' || c == '%' || c == '&' || c == '\''
    ||| c == '*' || c == '+' || c == '-' || c == '.' || c == '^' || c == '_'
    ||| c == '`' || c == '|' || c == '~'
}

/// A method name the HTTP layer accepts: one or more token characters.
pub open spec fn valid_method(s: Seq<char>) -> bool {
    s.len() >= 1 && forall|i: int| 0 <= i < s.len() ==> is_tchar(#[trigger] s[i])
}

/// A header name the HTTP layer accepts: 1 to 65535 token characters.
pub open spec fn valid_header_name(s: Seq<char>) -> bool {
    1 <= s.len() <= 65535 && forall|i: int| 0 <= i < s.len() ==> is_tchar(#[trigger] s[i])
}

/// A character allowed in a header value: tab, or anything from space up
/// except DEL.
pub open spec fn is_header_value_char(c: char) -> bool {
    c == '\t' || (' ' <= c && c != '\x7f')
}

pub open spec fn valid_header_value(s: Seq<char>) -> bool {
    forall|i: int| 0 <= i < s.len() ==> is_header_value_char(#[trigger] s[i])
}

/// A byte of a header value that reads as text: tab or visible ASCII.
pub open spec fn is_visible_ascii(b: u8) -> bool {
    b == 9 || (32 <= b && b < 127)
}

pub open spec fn header_bytes_are_text(v: Seq<u8>) -> bool {
    forall|i: int| 0 <= i < v.len() ==> is_visible_ascii(#[trigger] v[i])
}

/// `Method::from_bytes` accepts exactly the non-empty token strings.
#[verifier::external_body]
fn method_is_valid(method: &str) -> (r: bool)
    ensures
        r == valid_method(method@),
{
    http::Method::from_bytes(method.as_bytes()).is_ok()
}

/// `HeaderName::from_bytes` accepts 1 to 65535 token characters and keeps the
/// name in ASCII lowercase; it reports any other input as an invalid name.
#[verifier::external_body]
fn parse_header_name(name: &str) -> (r: Result<String, String>)
    ensures
        match r {
            Ok(n) => valid_header_name(name@) && n@ == ascii_lower_seq(name@),
            Err(e) => !valid_header_name(name@) && e@ == "invalid HTTP header name"@,
        },
{
    match http::HeaderName::from_bytes(name.as_bytes()) {
        Ok(n) => Ok(n.as_str().to_owned()),
        Err(e) => Err(e.to_string()),
    }
}

/// `HeaderValue::from_str` accepts a value whose bytes are all tab or at
/// least space and not DEL; multi-byte characters are made of such bytes.
#[verifier::external_body]
fn check_header_value(value: &str) -> (r: Result<(), String>)
    ensures
        r is Ok <==> valid_header_value(value@),
        r matches Err(e) ==> e@ == "failed to parse header value"@,
{
    match http::HeaderValue::from_str(value) {
        Ok(_) => Ok(()),
        Err(e) => Err(e.to_string()),
    }
}

/// `HeaderValue::to_str` on a value built from `value`: text exactly when
/// every byte is tab or visible ASCII, and then those bytes as characters.
#[verifier::external_body]
fn header_value_text(value: &[u8]) -> (r: Option<String>)
    ensures
        r is Some <==> header_bytes_are_text(value@),
        r matches Some(s) ==> s@ == crate::encoding::ascii_chars(value@),
{
    match http::HeaderValue::from_bytes(value) {
        Ok(v) => match v.to_str() {
            Ok(s) => Some(s.to_owned()),
            Err(_) => None,
        },
        Err(_) => None,
    }
}

/// Request headers that script may not set.
pub open spec fn spec_is_forbidden_request_header(name: Seq<char>) -> bool {
    ||| name == "accept-charset"@ || name == "accept-encoding"@
    ||| name == "access-control-request-headers"@ || name == "access-control-request-method"@
    ||| name == "connection"@ || name == "content-length"@ || name == "cookie"@
    ||| name == "cookie2"@ || name == "date"@ || name == "dnt"@ || name == "expect"@
    ||| name == "host"@ || name == "keep-alive"@ || name == "origin"@ || name == "referer"@
    ||| name == "te"@ || name == "trailer"@ || name == "transfer-encoding"@
    ||| name == "upgrade"@ || name == "via"@
    ||| has_prefix(name, "proxy-"@)
    ||| has_prefix(name, "sec-"@)
}

pub open spec fn has_prefix(s: Seq<char>, p: Seq<char>) -> bool {
    p.len() <= s.len() && s.take(p.len() as int) == p
}

fn chars_start_with(s: &[char], p: &str) -> (r: bool)
    ensures
        r == has_prefix(s@, p@),
{
    let pc = str_to_chars(p);
    if pc.len() > s.len() {
        return false;
    }
    let mut i: usize = 0;
    while i < pc.len()
        invariant
            pc@ == p@,
            pc.len() <= s.len(),
            i <= pc.len(),
            forall|j: int| 0 <= j < i ==> s@[j] == pc@[j],
        decreases pc.len() - i,
    {
        if s[i] != pc[i] {
            assert(s@.take(pc@.len() as int)[i as int] != p@[i as int]);
            return false;
        }
        i += 1;
    }
    assert(s@.take(pc@.len() as int) =~= p@);
    true
}

/// Whether script may not set a request header of this (lowercase) name.
pub fn is_forbidden_request_header(name: &str) -> (r: bool)
    ensures
        r == spec_is_forbidden_request_header(name@),
{
    let chars = str_to_chars(name);
    str_equal(name, "accept-charset") || str_equal(name, "accept-encoding") || str_equal(
        name,
        "access-control-request-headers",
    ) || str_equal(name, "access-control-request-method") || str_equal(name, "connection")
        || str_equal(name, "content-length") || str_equal(name, "cookie") || str_equal(
        name,
        "cookie2",
    ) || str_equal(name, "date") || str_equal(name, "dnt") || str_equal(name, "expect")
        || str_equal(name, "host") || str_equal(name, "keep-alive") || str_equal(name, "origin")
        || str_equal(name, "referer") || str_equal(name, "te") || str_equal(name, "trailer")
        || str_equal(name, "transfer-encoding") || str_equal(name, "upgrade") || str_equal(
        name,
        "via",
    ) || chars_start_with(chars.as_slice(), "proxy-") || chars_start_with(chars.as_slice(), "sec-")
}

/// The methods a request may use without a preflight.
pub open spec fn spec_is_simple_method(method: Seq<char>) -> bool {
    method == "GET"@ || method == "HEAD"@ || method == "POST"@
}

/// Whether a (valid) method is `GET`, `HEAD`, or `POST`; method names are
/// case-sensitive.
pub fn is_simple_method(method: &str) -> (r: bool)
    ensures
        r == spec_is_simple_method(method@),
{
    str_equal(method, "GET") || str_equal(method, "HEAD") || str_equal(method, "POST")
}

pub open spec fn is_header_text_char(c: char) -> bool {
    c == '\t' || (' ' <= c && c <= '~')
}

/// A header value that reads as text.
pub open spec fn is_header_text(s: Seq<char>) -> bool {
    forall|i: int| 0 <= i < s.len() ==> is_header_text_char(#[trigger] s[i])
}

/// The essence of a `Content-Type` value: what stands before the first `;`,
/// trimmed.
pub open spec fn mime_essence(value: Seq<char>) -> Seq<char> {
    trim_class(crate::text_util::split_on(value, ';')[0], TrimClass::Whitespace)
}

/// A `Content-Type` a request may carry without a preflight.
pub open spec fn spec_is_simple_content_type(value: Seq<char>) -> bool {
    is_header_text(value) && {
        let m = ascii_lower_seq(mime_essence(value));
        m == "application/x-www-form-urlencoded"@ || m == "multipart/form-data"@ || m
            == "text/plain"@
    }
}

fn chars_are_header_text(s: &[char]) -> (r: bool)
    ensures
        r == is_header_text(s@),
{
    let mut i: usize = 0;
    while i < s.len()
        invariant
            i <= s.len(),
            forall|j: int| 0 <= j < i ==> is_header_text_char(#[trigger] s@[j]),
        decreases s.len() - i,
    {
        let c = s[i];
        if !(c == '\t' || (' ' <= c && c <= '~')) {
            assert(!is_header_text_char(s@[i as int]));
            return false;
        }
        i += 1;
    }
    true
}

/// Whether a `Content-Type` value is one of the three simple types, ignoring
/// parameters, surrounding whitespace, and ASCII case.
pub fn is_simple_content_type(value: &str) -> (r: bool)
    ensures
        r == spec_is_simple_content_type(value@),
{
    let chars = str_to_chars(value);
    if !chars_are_header_text(chars.as_slice()) {
        return false;
    }
    let parts = crate::text_util::split_chars(chars.as_slice(), ';');
    proof {
        crate::text_util::lemma_split_on_len(value@, ';');
        assert(parts@[0]@ == crate::text_util::split_on(value@, ';')[0]);
    }
    let trimmed = trim_chars(parts[0].as_slice(), TrimClass::Whitespace);
    let lower = chars_to_ascii_lowercase(trimmed.as_slice());
    let mime = chars_to_string(lower.as_slice());
    str_equal(mime.as_str(), "application/x-www-form-urlencoded") || str_equal(
        mime.as_str(),
        "multipart/form-data",
    ) || str_equal(mime.as_str(), "text/plain")
}

/// A request header that needs no preflight.
pub open spec fn spec_is_simple_header(name: Seq<char>, value: Seq<char>) -> bool {
    (name == "accept"@ || name == "accept-language"@ || name == "content-language"@ || name
        == "content-type"@ || name == "origin"@) && (name != "content-type"@
        || spec_is_simple_content_type(value))
}

/// Whether a request header (lowercase name) needs no preflight.
pub fn is_simple_header(name: &str, value: &str) -> (r: bool)
    ensures
        r == spec_is_simple_header(name@, value@),
{
    let listed = str_equal(name, "accept") || str_equal(name, "accept-language") || str_equal(
        name,
        "content-language",
    ) || str_equal(name, "content-type") || str_equal(name, "origin");
    listed && (!str_equal(name, "content-type") || is_simple_content_type(value))
}

/// Views of a list of text headers.
pub open spec fn text_headers_view(h: Seq<(String, String)>) -> Seq<(Seq<char>, Seq<char>)> {
    Seq::new(h.len(), |i: int| (h[i].0@, h[i].1@))
}

/// Whether every header of the list needs no preflight.
pub open spec fn spec_are_simple_headers(h: Seq<(Seq<char>, Seq<char>)>) -> bool {
    forall|i: int| 0 <= i < h.len() ==> spec_is_simple_header(#[trigger] h[i].0, h[i].1)
}

/// Whether no header of the list needs a preflight.
pub fn are_simple_headers(headers: &[(String, String)]) -> (r: bool)
    ensures
        r == spec_are_simple_headers(text_headers_view(headers@)),
{
    let mut i: usize = 0;
    while i < headers.len()
        invariant
            i <= headers.len(),
            forall|j: int|
                0 <= j < i ==> spec_is_simple_header(
                    #[trigger] text_headers_view(headers@)[j].0,
                    text_headers_view(headers@)[j].1,
                ),
        decreases headers.len() - i,
    {
        if !is_simple_header(headers[i].0.as_str(), headers[i].1.as_str()) {
            assert(!spec_is_simple_header(
                text_headers_view(headers@)[i as int].0,
                text_headers_view(headers@)[i as int].1,
            ));
            return false;
        }
        i += 1;
    }
    true
}

/// The headers script asked for, checked and with lowercase names, or the
/// error for the first entry that is refused.
pub open spec fn spec_request_headers(entries: Seq<(Seq<char>, Seq<char>)>) -> Result<
    Seq<(Seq<char>, Seq<char>)>,
    Seq<char>,
>
    decreases entries.len(),
{
    if entries.len() == 0 {
        Ok(Seq::empty())
    } else {
        match spec_request_headers(entries.drop_last()) {
            Err(e) => Err(e),
            Ok(prev) => {
                let (n, v) = entries.last();
                if !valid_header_name(n) {
                    Err("invalid HTTP header name"@)
                } else if spec_is_forbidden_request_header(ascii_lower_seq(n)) {
                    Err("forbidden request header "@ + ascii_lower_seq(n))
                } else if !valid_header_value(v) {
                    Err("failed to parse header value"@)
                } else {
                    Ok(prev.push((ascii_lower_seq(n), v)))
                }
            },
        }
    }
}

proof fn lemma_request_headers_err_stays(s: Seq<(Seq<char>, Seq<char>)>, k: int)
    requires
        0 <= k <= s.len(),
        spec_request_headers(s.take(k)) is Err,
    ensures
        spec_request_headers(s) == spec_request_headers(s.take(k)),
    decreases s.len(),
{
    if k < s.len() {
        assert(s.drop_last().take(k) =~= s.take(k));
        lemma_request_headers_err_stays(s.drop_last(), k);
    } else {
        assert(s.take(k) =~= s);
    }
}

/// Checks the headers script asked for: each name must be valid and not
/// forbidden, each value valid. The names come back in lowercase, in order.
pub fn request_headers(entries: &[(String, String)]) -> (r: Result<Vec<(String, String)>, String>)
    ensures
        match r {
            Ok(h) => spec_request_headers(text_headers_view(entries@)) == Ok::<
                Seq<(Seq<char>, Seq<char>)>,
                Seq<char>,
            >(text_headers_view(h@)),
            Err(e) => spec_request_headers(text_headers_view(entries@)) == Err::<
                Seq<(Seq<char>, Seq<char>)>,
                Seq<char>,
            >(e@),
        },
{
    let mut out: Vec<(String, String)> = Vec::new();
    let mut i: usize = 0;
    assert(text_headers_view(entries@).take(0) =~= Seq::<(Seq<char>, Seq<char>)>::empty());
    assert(text_headers_view(out@) =~= Seq::<(Seq<char>, Seq<char>)>::empty());
    while i < entries.len()
        invariant
            i <= entries.len(),
            spec_request_headers(text_headers_view(entries@).take(i as int)) == Ok::<
                Seq<(Seq<char>, Seq<char>)>,
                Seq<char>,
            >(text_headers_view(out@)),
        decreases entries.len() - i,
    {
        let ghost ev = text_headers_view(entries@);
        assert(ev.take(i + 1).drop_last() =~= ev.take(i as int));
        assert(ev.take(i + 1).last() == ev[i as int]);
        let name = match parse_header_name(entries[i].0.as_str()) {
            Ok(n) => n,
            Err(e) => {
                proof {
                    lemma_request_headers_err_stays(ev, i + 1);
                }
                return Err(e);
            },
        };
        if is_forbidden_request_header(name.as_str()) {
            let mut message = String::new();
            push_str(&mut message, "forbidden request header ");
            push_str(&mut message, name.as_str());
            proof {
                lemma_request_headers_err_stays(ev, i + 1);
            }
            return Err(message);
        }
        match check_header_value(entries[i].1.as_str()) {
            Ok(()) => {},
            Err(e) => {
                proof {
                    lemma_request_headers_err_stays(ev, i + 1);
                }
                return Err(e);
            },
        }
        let value = entries[i].1.clone();
        let ghost prev = out@;
        out.push((name, value));
        assert(text_headers_view(out@) =~= text_headers_view(prev).push(
            (ascii_lower_seq(ev[i as int].0), ev[i as int].1),
        ));
        i += 1;
    }
    assert(text_headers_view(entries@).take(entries.len() as int) =~= text_headers_view(
        entries@,
    ));
    Ok(out)
}


/// Views of a list of strings.
pub open spec fn strings_view(v: Seq<String>) -> Seq<Seq<char>> {
    Seq::new(v.len(), |i: int| v[i]@)
}

/// Strict lexicographic order of character sequences by code point, which
/// is also the order of their UTF-8 bytes.
pub open spec fn char_seq_less(a: Seq<char>, b: Seq<char>) -> bool
    decreases a.len(),
{
    if a.len() == 0 {
        b.len() > 0
    } else if b.len() == 0 {
        false
    } else if a[0] != b[0] {
        a[0] < b[0]
    } else {
        char_seq_less(a.drop_first(), b.drop_first())
    }
}

fn chars_less(a: &[char], b: &[char]) -> (r: bool)
    ensures
        r == char_seq_less(a@, b@),
{
    let mut i: usize = 0;
    assert(a@.skip(0) =~= a@);
    assert(b@.skip(0) =~= b@);
    while i < a.len() && i < b.len()
        invariant
            i <= a.len(),
            i <= b.len(),
            char_seq_less(a@, b@) == char_seq_less(a@.skip(i as int), b@.skip(i as int)),
        decreases a.len() - i,
    {
        if a[i] != b[i] {
            return a[i] < b[i];
        }
        assert(a@.skip(i as int).drop_first() =~= a@.skip(i + 1));
        assert(b@.skip(i as int).drop_first() =~= b@.skip(i + 1));
        i += 1;
    }
    i == a.len() && i < b.len()
}

/// `s` with `x` added in order, unless it is already there.
pub open spec fn sorted_insert(s: Seq<Seq<char>>, x: Seq<char>) -> Seq<Seq<char>>
    decreases s.len(),
{
    if s.len() == 0 {
        seq![x]
    } else if char_seq_less(s[0], x) {
        seq![s[0]] + sorted_insert(s.drop_first(), x)
    } else if s[0] == x {
        s
    } else {
        seq![x] + s
    }
}

proof fn lemma_sorted_insert_at(s: Seq<Seq<char>>, x: Seq<char>, p: int)
    requires
        0 <= p <= s.len(),
        forall|j: int| 0 <= j < p ==> char_seq_less(#[trigger] s[j], x),
        p == s.len() || !char_seq_less(s[p], x),
    ensures
        sorted_insert(s, x) == (if p < s.len() && s[p] == x {
            s
        } else {
            s.take(p) + seq![x] + s.skip(p)
        }),
    decreases p,
{
    if p == 0 {
        assert(s.take(0) + seq![x] + s.skip(0) =~= seq![x] + s);
    } else {
        let t = s.drop_first();
        assert forall|j: int| 0 <= j < p - 1 implies char_seq_less(#[trigger] t[j], x) by {
            assert(t[j] == s[j + 1]);
        }
        assert(p - 1 == t.len() || !char_seq_less(t[p - 1], x));
        lemma_sorted_insert_at(t, x, p - 1);
        assert(char_seq_less(s[0], x));
        if p < s.len() && s[p] == x {
            assert(seq![s[0]] + t =~= s);
        } else {
            assert(seq![s[0]] + (t.take(p - 1) + seq![x] + t.skip(p - 1)) =~= s.take(p) + seq![x]
                + s.skip(p));
        }
    }
}

fn insert_sorted(names: &mut Vec<String>, x: String)
    ensures
        strings_view(final(names)@) == sorted_insert(strings_view(old(names)@), x@),
{
    let xc = str_to_chars(x.as_str());
    let ghost s = strings_view(names@);
    let mut p: usize = 0;
    let mut searching = true;
    while searching && p < names.len()
        invariant
            p <= names.len(),
            s == strings_view(names@),
            xc@ == x@,
            forall|j: int| 0 <= j < p ==> char_seq_less(#[trigger] s[j], x@),
            !searching ==> p < names.len() && !char_seq_less(s[p as int], x@),
        decreases names.len() - p + (if searching { 1int } else { 0int }),
    {
        let c = str_to_chars(names[p].as_str());
        if chars_less(c.as_slice(), xc.as_slice()) {
            p += 1;
        } else {
            searching = false;
        }
    }
    proof {
        lemma_sorted_insert_at(s, x@, p as int);
    }
    if p < names.len() && str_equal(names[p].as_str(), x.as_str()) {
        return ;
    }
    names.insert(p, x);
    assert(strings_view(names@) =~= s.take(p as int) + seq![x@] + s.skip(p as int));
}

/// Names of the headers that need a preflight, in sorted order and each once.
pub open spec fn spec_non_simple_header_names(h: Seq<(Seq<char>, Seq<char>)>) -> Seq<Seq<char>>
    decreases h.len(),
{
    if h.len() == 0 {
        Seq::empty()
    } else {
        let prev = spec_non_simple_header_names(h.drop_last());
        let (n, v) = h.last();
        if spec_is_simple_header(n, v) {
            prev
        } else {
            sorted_insert(prev, n)
        }
    }
}

/// The names of the headers that are not simple, sorted, without repeats.
pub fn non_simple_header_names(headers: &[(String, String)]) -> (r: Vec<String>)
    ensures
        strings_view(r@) == spec_non_simple_header_names(text_headers_view(headers@)),
{
    let mut out: Vec<String> = Vec::new();
    let mut i: usize = 0;
    assert(text_headers_view(headers@).take(0) =~= Seq::<(Seq<char>, Seq<char>)>::empty());
    assert(strings_view(out@) =~= Seq::<Seq<char>>::empty());
    while i < headers.len()
        invariant
            i <= headers.len(),
            strings_view(out@) == spec_non_simple_header_names(
                text_headers_view(headers@).take(i as int),
            ),
        decreases headers.len() - i,
    {
        let ghost hv = text_headers_view(headers@);
        assert(hv.take(i + 1).drop_last() =~= hv.take(i as int));
        assert(hv.take(i + 1).last() == hv[i as int]);
        if !is_simple_header(headers[i].0.as_str(), headers[i].1.as_str()) {
            let name = headers[i].0.clone();
            insert_sorted(&mut out, name);
        }
        i += 1;
    }
    assert(text_headers_view(headers@).take(headers.len() as int) =~= text_headers_view(
        headers@,
    ));
    out
}

/// The credentials mode a fetch names.
pub open spec fn spec_credentials_mode(value: Seq<char>) -> Option<CredentialsMode> {
    if value == "omit"@ {
        Some(CredentialsMode::Omit)
    } else if value == "same-origin"@ {
        Some(CredentialsMode::SameOrigin)
    } else if value == "include"@ {
        Some(CredentialsMode::Include)
    } else {
        None
    }
}

/// The credentials mode named `omit`, `same-origin`, or `include`.
pub fn credentials_mode(value: &str) -> (r: Option<CredentialsMode>)
    ensures
        r == spec_credentials_mode(value@),
{
    if str_equal(value, "omit") {
        Some(CredentialsMode::Omit)
    } else if str_equal(value, "same-origin") {
        Some(CredentialsMode::SameOrigin)
    } else if str_equal(value, "include") {
        Some(CredentialsMode::Include)
    } else {
        None
    }
}

/// How a checked fetch goes out: its method and headers (with `Origin` added
/// for a cross-origin CORS request), its credentials, and whether a
/// preflight must first allow the headers in `preflight_headers`.
pub struct FetchPlan {
    pub method: String,
    pub headers: Vec<(String, String)>,
    pub credentials: CredentialsMode,
    pub add_origin: bool,
    pub needs_preflight: bool,
    pub preflight_headers: Vec<String>,
}

impl View for FetchPlan {
    type V = (
        Seq<char>,
        Seq<(Seq<char>, Seq<char>)>,
        CredentialsMode,
        bool,
        bool,
        Seq<Seq<char>>,
    );

    open spec fn view(&self) -> Self::V {
        (
            self.method@,
            text_headers_view(self.headers@),
            self.credentials,
            self.add_origin,
            self.needs_preflight,
            strings_view(self.preflight_headers@),
        )
    }
}

/// The checks a fetch must pass before anything is sent, in order, and the
/// plan for a fetch that passes them.
pub open spec fn spec_plan_fetch(
    http_family: bool,
    scheme: Seq<char>,
    method: Seq<char>,
    entries: Seq<(Seq<char>, Seq<char>)>,
    document_origin: Seq<char>,
    cross_origin: bool,
    mode: Seq<char>,
    credentials: Seq<char>,
) -> Result<
    (Seq<char>, Seq<(Seq<char>, Seq<char>)>, CredentialsMode, bool, bool, Seq<Seq<char>>),
    Seq<char>,
> {
    if !http_family {
        Err("unsupported fetch scheme "@ + scheme)
    } else if !valid_method(method) {
        Err("invalid fetch method "@ + method)
    } else {
        match spec_request_headers(entries) {
            Err(e) => Err(e),
            Ok(h) => if mode == "same-origin"@ && cross_origin {
                Err("same-origin fetch blocked a cross-origin URL"@)
            } else if !(mode == "cors"@ || mode == "same-origin"@ || mode == "no-cors"@) {
                Err("unsupported fetch mode "@ + mode)
            } else if mode == "no-cors"@ && !(spec_is_simple_method(method)
                && spec_are_simple_headers(h)) {
                Err("no-cors fetch requires a simple method and headers"@)
            } else {
                match spec_credentials_mode(credentials) {
                    None => Err("unsupported credentials mode "@ + credentials),
                    Some(c) => {
                        let add_origin = cross_origin && mode == "cors"@;
                        if add_origin && !valid_header_value(document_origin) {
                            Err("failed to parse header value"@)
                        } else {
                            let hs = if add_origin {
                                h.push(("origin"@, document_origin))
                            } else {
                                h
                            };
                            let pre = add_origin && !(spec_is_simple_method(method)
                                && spec_are_simple_headers(hs));
                            Ok(
                                (
                                    method,
                                    hs,
                                    c,
                                    add_origin,
                                    pre,
                                    if pre {
                                        spec_non_simple_header_names(hs)
                                    } else {
                                        Seq::empty()
                                    },
                                ),
                            )
                        }
                    },
                }
            },
        }
    }
}

fn string_of(s: &str) -> (r: String)
    ensures
        r@ == s@,
{
    chars_to_string(str_to_chars(s).as_slice())
}

fn message_with(prefix: &str, detail: &str) -> (r: String)
    ensures
        r@ == prefix@ + detail@,
{
    let mut m = String::new();
    push_str(&mut m, prefix);
    push_str(&mut m, detail);
    m
}

/// Checks a fetch that script started, before anything is sent: the URL's
/// scheme, the method, the headers, the mode against the origins, and the
/// credentials mode. On success, says how the request goes out and whether
/// a CORS preflight must come first.
pub fn plan_fetch(
    http_family: bool,
    scheme: &str,
    method: &str,
    headers: &[(String, String)],
    document_origin: &str,
    cross_origin: bool,
    mode: &str,
    credentials: &str,
) -> (r: Result<FetchPlan, String>)
    ensures
        match r {
            Ok(p) => spec_plan_fetch(
                http_family,
                scheme@,
                method@,
                text_headers_view(headers@),
                document_origin@,
                cross_origin,
                mode@,
                credentials@,
            ) == Ok::<_, Seq<char>>(p@),
            Err(e) => spec_plan_fetch(
                http_family,
                scheme@,
                method@,
                text_headers_view(headers@),
                document_origin@,
                cross_origin,
                mode@,
                credentials@,
            ) == Err::<
                (Seq<char>, Seq<(Seq<char>, Seq<char>)>, CredentialsMode, bool, bool, Seq<Seq<char>>),
                Seq<char>,
            >(e@),
        },
{
    if !http_family {
        return Err(message_with("unsupported fetch scheme ", scheme));
    }
    if !method_is_valid(method) {
        return Err(message_with("invalid fetch method ", method));
    }
    let mut checked = match request_headers(headers) {
        Ok(h) => h,
        Err(e) => {
            return Err(e);
        },
    };
    let same_origin_mode = str_equal(mode, "same-origin");
    if same_origin_mode && cross_origin {
        return Err(string_of("same-origin fetch blocked a cross-origin URL"));
    }
    let cors = str_equal(mode, "cors");
    let no_cors = str_equal(mode, "no-cors");
    if !(cors || same_origin_mode || no_cors) {
        return Err(message_with("unsupported fetch mode ", mode));
    }
    let simple_method = is_simple_method(method);
    if no_cors && !(simple_method && are_simple_headers(checked.as_slice())) {
        return Err(string_of("no-cors fetch requires a simple method and headers"));
    }
    let creds = match credentials_mode(credentials) {
        Some(c) => c,
        None => {
            return Err(message_with("unsupported credentials mode ", credentials));
        },
    };
    let add_origin = cross_origin && cors;
    if add_origin {
        match check_header_value(document_origin) {
            Ok(()) => {},
            Err(e) => {
                return Err(e);
            },
        }
        let ghost prev = checked@;
        checked.push((string_of("origin"), string_of(document_origin)));
        assert(text_headers_view(checked@) =~= text_headers_view(prev).push(
            ("origin"@, document_origin@),
        ));
    }
    let needs_preflight = add_origin && !(simple_method && are_simple_headers(checked.as_slice()));
    let preflight_headers = if needs_preflight {
        non_simple_header_names(checked.as_slice())
    } else {
        let v: Vec<String> = Vec::new();
        assert(strings_view(v@) =~= Seq::<Seq<char>>::empty());
        v
    };
    Ok(
        FetchPlan {
            method: string_of(method),
            headers: checked,
            credentials: creds,
            add_origin,
            needs_preflight,
            preflight_headers,
        },
    )
}


/// Views of response headers: lowercase names and raw value bytes, in the
/// order the response's header map yields them.
pub open spec fn raw_headers_view(h: Seq<(String, Vec<u8>)>) -> Seq<(Seq<char>, Seq<u8>)> {
    Seq::new(h.len(), |i: int| (h[i].0@, h[i].1@))
}

/// The first value of the header `name`.
pub open spec fn first_header_value(h: Seq<(Seq<char>, Seq<u8>)>, name: Seq<char>) -> Option<
    Seq<u8>,
>
    decreases h.len(),
{
    if h.len() == 0 {
        None
    } else if h[0].0 == name {
        Some(h[0].1)
    } else {
        first_header_value(h.drop_first(), name)
    }
}

/// The first value of the header `name`, when it reads as text.
pub open spec fn header_text_value(h: Seq<(Seq<char>, Seq<u8>)>, name: Seq<char>) -> Option<
    Seq<char>,
> {
    match first_header_value(h, name) {
        Some(v) => if header_bytes_are_text(v) {
            Some(crate::encoding::ascii_chars(v))
        } else {
            None
        },
        None => None,
    }
}

pub open spec fn opt_string_view(s: Option<String>) -> Option<Seq<char>> {
    match s {
        Some(t) => Some(t@),
        None => None,
    }
}

fn first_text_value(headers: &[(String, Vec<u8>)], name: &str) -> (r: Option<String>)
    ensures
        opt_string_view(r) == header_text_value(raw_headers_view(headers@), name@),
{
    let ghost h = raw_headers_view(headers@);
    let mut i: usize = 0;
    assert(h.skip(0) =~= h);
    while i < headers.len()
        invariant
            i <= headers.len(),
            h == raw_headers_view(headers@),
            first_header_value(h, name@) == first_header_value(h.skip(i as int), name@),
        decreases headers.len() - i,
    {
        assert(h.skip(i as int)[0] == h[i as int]);
        if str_equal(headers[i].0.as_str(), name) {
            return header_value_text(headers[i].1.as_slice());
        }
        assert(h.skip(i as int).drop_first() =~= h.skip(i + 1));
        i += 1;
    }
    assert(h.skip(i as int).len() == 0);
    None
}

/// What a CORS response must carry for script to read it: an
/// `Access-Control-Allow-Origin` that names the document's origin (or `*`,
/// unless credentials are included), and, with credentials included,
/// `Access-Control-Allow-Credentials: true`.
pub open spec fn spec_validate_cors(
    h: Seq<(Seq<char>, Seq<u8>)>,
    expected: Seq<char>,
    credentials: CredentialsMode,
) -> Result<(), Seq<char>> {
    match header_text_value(h, "access-control-allow-origin"@) {
        None => Err("CORS response omitted Access-Control-Allow-Origin"@),
        Some(allowed) => if allowed != expected && !(allowed == "*"@ && credentials
            != CredentialsMode::Include) {
            Err("CORS origin "@ + expected + " was not allowed"@)
        } else if credentials == CredentialsMode::Include && header_text_value(
            h,
            "access-control-allow-credentials"@,
        ) != Some("true"@) {
            Err("credentialed CORS response omitted Access-Control-Allow-Credentials: true"@)
        } else {
            Ok(())
        },
    }
}

/// Checks the CORS headers of a response against the document's origin
/// (`expected_origin`, serialized) and the credentials mode.
pub fn validate_cors_response(
    headers: &[(String, Vec<u8>)],
    expected_origin: &str,
    credentials: CredentialsMode,
) -> (r: Result<(), String>)
    ensures
        match r {
            Ok(()) => spec_validate_cors(raw_headers_view(headers@), expected_origin@, credentials)
                is Ok,
            Err(e) => spec_validate_cors(raw_headers_view(headers@), expected_origin@, credentials)
                == Err::<(), Seq<char>>(e@),
        },
{
    let allowed = match first_text_value(headers, "access-control-allow-origin") {
        Some(a) => a,
        None => {
            return Err(string_of("CORS response omitted Access-Control-Allow-Origin"));
        },
    };
    let with_credentials = credentials == CredentialsMode::Include;
    if !str_equal(allowed.as_str(), expected_origin) && !(str_equal(allowed.as_str(), "*")
        && !with_credentials) {
        let mut m = message_with("CORS origin ", expected_origin);
        push_str(&mut m, " was not allowed");
        return Err(m);
    }
    if with_credentials {
        let ok = match first_text_value(headers, "access-control-allow-credentials") {
            Some(v) => str_equal(v.as_str(), "true"),
            None => false,
        };
        if !ok {
            return Err(
                string_of(
                    "credentialed CORS response omitted Access-Control-Allow-Credentials: true",
                ),
            );
        }
    }
    Ok(())
}

/// The trimmed, non-empty pieces of a comma-separated list.
pub open spec fn comma_items(parts: Seq<Seq<char>>) -> Seq<Seq<char>>
    decreases parts.len(),
{
    if parts.len() == 0 {
        Seq::empty()
    } else {
        let prev = comma_items(parts.drop_last());
        let t = trim_class(parts.last(), TrimClass::Whitespace);
        if t.len() > 0 {
            prev.push(t)
        } else {
            prev
        }
    }
}

/// The comma-separated items of every text value of the header `name`, in
/// order.
pub open spec fn spec_comma_values(h: Seq<(Seq<char>, Seq<u8>)>, name: Seq<char>) -> Seq<
    Seq<char>,
>
    decreases h.len(),
{
    if h.len() == 0 {
        Seq::empty()
    } else {
        let prev = spec_comma_values(h.drop_last(), name);
        let (n, v) = h.last();
        if n == name && header_bytes_are_text(v) {
            prev + comma_items(crate::text_util::split_on(crate::encoding::ascii_chars(v), ','))
        } else {
            prev
        }
    }
}

fn push_comma_items(out: &mut Vec<String>, text: &[char])
    ensures
        strings_view(final(out)@) == strings_view(old(out)@) + comma_items(
            crate::text_util::split_on(text@, ','),
        ),
{
    let parts = crate::text_util::split_chars(text, ',');
    let ghost pv = Seq::new(parts@.len(), |k: int| parts@[k]@);
    let ghost start = strings_view(out@);
    let mut i: usize = 0;
    assert(pv.take(0) =~= Seq::<Seq<char>>::empty());
    assert(start + comma_items(pv.take(0)) =~= start);
    while i < parts.len()
        invariant
            i <= parts.len(),
            pv == Seq::new(parts@.len(), |k: int| parts@[k]@),
            strings_view(out@) == start + comma_items(pv.take(i as int)),
        decreases parts.len() - i,
    {
        assert(pv.take(i + 1).drop_last() =~= pv.take(i as int));
        assert(pv.take(i + 1).last() == parts@[i as int]@);
        let t = trim_chars(parts[i].as_slice(), TrimClass::Whitespace);
        if t.len() > 0 {
            let ghost prev = strings_view(out@);
            out.push(chars_to_string(t.as_slice()));
            assert(strings_view(out@) =~= prev.push(t@));
            assert(start + comma_items(pv.take(i + 1)) =~= (start + comma_items(
                pv.take(i as int),
            )).push(t@));
        }
        i += 1;
    }
    assert(pv.take(parts.len() as int) =~= pv);
}

/// The comma-separated items of every text value of the header `name`.
pub fn comma_values(headers: &[(String, Vec<u8>)], name: &str) -> (r: Vec<String>)
    ensures
        strings_view(r@) == spec_comma_values(raw_headers_view(headers@), name@),
{
    let ghost h = raw_headers_view(headers@);
    let mut out: Vec<String> = Vec::new();
    let mut i: usize = 0;
    assert(h.take(0) =~= Seq::<(Seq<char>, Seq<u8>)>::empty());
    assert(strings_view(out@) =~= Seq::<Seq<char>>::empty());
    while i < headers.len()
        invariant
            i <= headers.len(),
            h == raw_headers_view(headers@),
            strings_view(out@) == spec_comma_values(h.take(i as int), name@),
        decreases headers.len() - i,
    {
        assert(h.take(i + 1).drop_last() =~= h.take(i as int));
        assert(h.take(i + 1).last() == h[i as int]);
        if str_equal(headers[i].0.as_str(), name) {
            match header_value_text(headers[i].1.as_slice()) {
                Some(text) => {
                    let chars = str_to_chars(text.as_str());
                    push_comma_items(&mut out, chars.as_slice());
                },
                None => {},
            }
        }
        i += 1;
    }
    assert(h.take(headers.len() as int) =~= h);
    out
}

/// Whether two character sequences are equal ignoring ASCII case.
pub open spec fn eq_ignore_ascii_case(a: Seq<char>, b: Seq<char>) -> bool {
    ascii_lower_seq(a) == ascii_lower_seq(b)
}

fn chars_eq_ignore_ascii_case(a: &[char], b: &[char]) -> (r: bool)
    ensures
        r == eq_ignore_ascii_case(a@, b@),
{
    let x = chars_to_ascii_lowercase(a);
    let y = chars_to_ascii_lowercase(b);
    chars_equal(x.as_slice(), y.as_slice())
}

/// Whether an allow-list of header names admits `name` (by `*` or by name,
/// ignoring ASCII case).
pub open spec fn header_allowed(allowed: Seq<Seq<char>>, name: Seq<char>) -> bool {
    exists|i: int|
        0 <= i < allowed.len() && (allowed[i] == "*"@ || eq_ignore_ascii_case(
            #[trigger] allowed[i],
            name,
        ))
}

/// The first of `names` that the allow-list does not admit.
pub open spec fn first_disallowed(names: Seq<Seq<char>>, allowed: Seq<Seq<char>>) -> Option<
    Seq<char>,
>
    decreases names.len(),
{
    if names.len() == 0 {
        None
    } else if !header_allowed(allowed, names[0]) {
        Some(names[0])
    } else {
        first_disallowed(names.drop_first(), allowed)
    }
}

/// Whether an HTTP status is a success (200 to 299).
pub open spec fn is_success_status(status: u16) -> bool {
    200 <= status <= 299
}

/// The reason phrase `StatusCode::canonical_reason` gives a status code.
pub uninterp spec fn canonical_reason(code: u16) -> Option<Seq<char>>;

/// `StatusCode::canonical_reason` of a status code between 100 and 999.
#[verifier::external_body]
fn status_reason(code: u16) -> (r: Option<String>)
    requires
        100 <= code <= 999,
    ensures
        opt_string_view(r) == canonical_reason(code),
{
    match http::StatusCode::from_u16(code) {
        Ok(s) => match s.canonical_reason() {
            Some(t) => Some(t.to_owned()),
            None => None,
        },
        Err(_) => None,
    }
}

/// How `StatusCode` displays: the code, a space, and its reason phrase or
/// `<unknown status code>`.
pub open spec fn status_line_text(code: u16) -> Seq<char> {
    crate::text_util::decimal(code as nat) + " "@ + match canonical_reason(code) {
        Some(t) => t,
        None => "<unknown status code>"@,
    }
}

/// The `Display` text of a status code between 100 and 999.
#[verifier::external_body]
pub(crate) fn status_line(code: u16) -> (r: String)
    requires
        100 <= code <= 999,
    ensures
        r@ == status_line_text(code),
{
    match http::StatusCode::from_u16(code) {
        Ok(s) => s.to_string(),
        Err(e) => e.to_string(),
    }
}

/// What a preflight response must allow for the request to go ahead.
pub open spec fn spec_check_preflight(
    status: u16,
    h: Seq<(Seq<char>, Seq<u8>)>,
    expected: Seq<char>,
    credentials: CredentialsMode,
    method: Seq<char>,
    non_simple: Seq<Seq<char>>,
) -> Result<(), Seq<char>> {
    if !is_success_status(status) {
        Err("CORS preflight failed with status "@ + status_line_text(status))
    } else {
        match spec_validate_cors(h, expected, credentials) {
            Err(e) => Err(e),
            Ok(_) => {
                let methods = spec_comma_values(h, "access-control-allow-methods"@);
                if !(exists|i: int|
                    0 <= i < methods.len() && eq_ignore_ascii_case(#[trigger] methods[i], method)) {
                    Err("CORS preflight did not allow method "@ + method)
                } else {
                    match first_disallowed(
                        non_simple,
                        spec_comma_values(h, "access-control-allow-headers"@),
                    ) {
                        Some(name) => Err("CORS preflight did not allow header "@ + name),
                        None => Ok(()),
                    }
                }
            },
        }
    }
}

fn allowed_by(allowed: &Vec<String>, name: &str) -> (r: bool)
    ensures
        r == header_allowed(strings_view(allowed@), name@),
{
    let ghost a = strings_view(allowed@);
    let nc = str_to_chars(name);
    let mut i: usize = 0;
    while i < allowed.len()
        invariant
            i <= allowed.len(),
            a == strings_view(allowed@),
            nc@ == name@,
            forall|j: int|
                0 <= j < i ==> !(a[j] == "*"@ || eq_ignore_ascii_case(#[trigger] a[j], name@)),
        decreases allowed.len() - i,
    {
        let ac = str_to_chars(allowed[i].as_str());
        if str_equal(allowed[i].as_str(), "*") || chars_eq_ignore_ascii_case(
            ac.as_slice(),
            nc.as_slice(),
        ) {
            assert(a[i as int] == "*"@ || eq_ignore_ascii_case(a[i as int], name@));
            return true;
        }
        i += 1;
    }
    false
}

/// Checks a preflight response: a success status, the CORS headers, the
/// method among `Access-Control-Allow-Methods`, and each header of
/// `non_simple` (in order) among `Access-Control-Allow-Headers`.
pub fn check_preflight(
    status: u16,
    headers: &[(String, Vec<u8>)],
    expected_origin: &str,
    credentials: CredentialsMode,
    method: &str,
    non_simple: &[String],
) -> (r: Result<(), String>)
    requires
        100 <= status <= 999,
    ensures
        match r {
            Ok(()) => spec_check_preflight(
                status,
                raw_headers_view(headers@),
                expected_origin@,
                credentials,
                method@,
                strings_view(non_simple@),
            ) is Ok,
            Err(e) => spec_check_preflight(
                status,
                raw_headers_view(headers@),
                expected_origin@,
                credentials,
                method@,
                strings_view(non_simple@),
            ) == Err::<(), Seq<char>>(e@),
        },
{
    if !(200 <= status && status <= 299) {
        let line = status_line(status);
        return Err(message_with("CORS preflight failed with status ", line.as_str()));
    }
    match validate_cors_response(headers, expected_origin, credentials) {
        Ok(()) => {},
        Err(e) => {
            return Err(e);
        },
    }
    let methods = comma_values(headers, "access-control-allow-methods");
    let ghost mv = strings_view(methods@);
    let mc = str_to_chars(method);
    let mut found = false;
    let mut i: usize = 0;
    while i < methods.len() && !found
        invariant
            i <= methods.len(),
            mv == strings_view(methods@),
            mc@ == method@,
            found ==> exists|k: int|
                0 <= k < mv.len() && eq_ignore_ascii_case(#[trigger] mv[k], method@),
            !found ==> forall|k: int|
                0 <= k < i ==> !eq_ignore_ascii_case(#[trigger] mv[k], method@),
        decreases methods.len() - i,
    {
        let c = str_to_chars(methods[i].as_str());
        if chars_eq_ignore_ascii_case(c.as_slice(), mc.as_slice()) {
            assert(eq_ignore_ascii_case(mv[i as int], method@));
            found = true;
        }
        i += 1;
    }
    if !found {
        return Err(message_with("CORS preflight did not allow method ", method));
    }
    let allowed = comma_values(headers, "access-control-allow-headers");
    let ghost names = strings_view(non_simple@);
    let ghost av = strings_view(allowed@);
    let mut j: usize = 0;
    assert(names.skip(0) =~= names);
    while j < non_simple.len()
        invariant
            j <= non_simple.len(),
            names == strings_view(non_simple@),
            av == strings_view(allowed@),
            200 <= status <= 299,
            spec_validate_cors(raw_headers_view(headers@), expected_origin@, credentials) is Ok,
            mv == spec_comma_values(raw_headers_view(headers@), "access-control-allow-methods"@),
            av == spec_comma_values(raw_headers_view(headers@), "access-control-allow-headers"@),
            exists|k: int| 0 <= k < mv.len() && eq_ignore_ascii_case(#[trigger] mv[k], method@),
            first_disallowed(names, av) == first_disallowed(names.skip(j as int), av),
        decreases non_simple.len() - j,
    {
        assert(names.skip(j as int)[0] == non_simple@[j as int]@);
        if !allowed_by(&allowed, non_simple[j].as_str()) {
            assert(first_disallowed(names.skip(j as int), av) == Some(non_simple@[j as int]@));
            return Err(message_with("CORS preflight did not allow header ", non_simple[j].as_str()));
        }
        assert(names.skip(j as int).drop_first() =~= names.skip(j + 1));
        j += 1;
    }
    assert(names.skip(j as int).len() == 0);
    Ok(())
}


/// Response headers every CORS response exposes to script.
pub open spec fn is_safelisted_response_header(name: Seq<char>) -> bool {
    ||| name == "cache-control"@ || name == "content-language"@ || name == "content-length"@
    ||| name == "content-type"@ || name == "expires"@ || name == "last-modified"@
    ||| name == "pragma"@
}

/// The lowercase names that `Access-Control-Expose-Headers` lists.
pub open spec fn exposed_header_names(h: Seq<(Seq<char>, Seq<u8>)>) -> Seq<Seq<char>> {
    let items = spec_comma_values(h, "access-control-expose-headers"@);
    Seq::new(items.len(), |i: int| ascii_lower_seq(items[i]))
}

/// Whether script may read the response header `name`: never
/// `Set-Cookie`; for a cross-origin CORS response, only safelisted or
/// exposed names.
pub open spec fn response_header_kept(
    h: Seq<(Seq<char>, Seq<u8>)>,
    name: Seq<char>,
    cors: bool,
) -> bool {
    name != "set-cookie"@ && (!cors || is_safelisted_response_header(name)
        || exposed_header_names(h).contains(name) || exposed_header_names(h).contains("*"@))
}

/// The readable text headers among the first `k` of `h`, in order.
pub open spec fn response_headers_upto(h: Seq<(Seq<char>, Seq<u8>)>, cors: bool, k: int) -> Seq<
    (Seq<char>, Seq<char>),
>
    decreases k,
{
    if k <= 0 || k > h.len() {
        Seq::empty()
    } else {
        let prev = response_headers_upto(h, cors, k - 1);
        let (n, v) = h[k - 1];
        if response_header_kept(h, n, cors) && header_bytes_are_text(v) {
            prev.push((n, crate::encoding::ascii_chars(v)))
        } else {
            prev
        }
    }
}

pub open spec fn spec_response_headers(h: Seq<(Seq<char>, Seq<u8>)>, cors: bool) -> Seq<
    (Seq<char>, Seq<char>),
> {
    response_headers_upto(h, cors, h.len() as int)
}

fn list_contains(list: &Vec<Vec<char>>, x: &[char]) -> (r: bool)
    ensures
        r == Seq::new(list@.len(), |i: int| list@[i]@).contains(x@),
{
    let ghost l = Seq::new(list@.len(), |i: int| list@[i]@);
    let mut i: usize = 0;
    while i < list.len()
        invariant
            i <= list.len(),
            l == Seq::new(list@.len(), |k: int| list@[k]@),
            forall|k: int| 0 <= k < i ==> l[k] != x@,
        decreases list.len() - i,
    {
        if chars_equal(list[i].as_slice(), x) {
            assert(l[i as int] == x@);
            return true;
        }
        i += 1;
    }
    false
}

/// The headers of a response that script may read, as text, in order;
/// `cors` marks a cross-origin CORS response.
pub fn response_headers(headers: &[(String, Vec<u8>)], cors: bool) -> (r: Vec<(String, String)>)
    ensures
        text_headers_view(r@) == spec_response_headers(raw_headers_view(headers@), cors),
{
    let ghost h = raw_headers_view(headers@);
    let items = comma_values(headers, "access-control-expose-headers");
    let mut exposed: Vec<Vec<char>> = Vec::new();
    let mut e: usize = 0;
    while e < items.len()
        invariant
            e <= items.len(),
            strings_view(items@) == spec_comma_values(h, "access-control-expose-headers"@),
            Seq::new(exposed@.len(), |i: int| exposed@[i]@) == exposed_header_names(h).take(
                e as int,
            ),
        decreases items.len() - e,
    {
        let c = str_to_chars(items[e].as_str());
        let ghost prev = Seq::new(exposed@.len(), |i: int| exposed@[i]@);
        assert(c@ == strings_view(items@)[e as int]);
        exposed.push(chars_to_ascii_lowercase(c.as_slice()));
        assert(Seq::new(exposed@.len(), |i: int| exposed@[i]@) =~= prev.push(ascii_lower_seq(c@)));
        assert(Seq::new(exposed@.len(), |i: int| exposed@[i]@) =~= exposed_header_names(h).take(
            e + 1,
        ));
        e += 1;
    }
    assert(exposed_header_names(h).take(items.len() as int) =~= exposed_header_names(h));
    let star = vec!['*'];
    assert(star@ =~= "*"@) by {
        reveal_strlit("*");
    }
    let any = list_contains(&exposed, star.as_slice());
    let mut out: Vec<(String, String)> = Vec::new();
    let mut i: usize = 0;
    assert(text_headers_view(out@) =~= Seq::<(Seq<char>, Seq<char>)>::empty());
    while i < headers.len()
        invariant
            i <= headers.len(),
            h == raw_headers_view(headers@),
            Seq::new(exposed@.len(), |k: int| exposed@[k]@) == exposed_header_names(h),
            any == exposed_header_names(h).contains("*"@),
            text_headers_view(out@) == response_headers_upto(h, cors, i as int),
        decreases headers.len() - i,
    {
        let name = &headers[i].0;
        let nc = str_to_chars(name.as_str());
        let kept = !str_equal(name.as_str(), "set-cookie") && (!cors || str_equal(
            name.as_str(),
            "cache-control",
        ) || str_equal(name.as_str(), "content-language") || str_equal(
            name.as_str(),
            "content-length",
        ) || str_equal(name.as_str(), "content-type") || str_equal(name.as_str(), "expires")
            || str_equal(name.as_str(), "last-modified") || str_equal(name.as_str(), "pragma")
            || list_contains(&exposed, nc.as_slice()) || any);
        assert(kept == response_header_kept(h, h[i as int].0, cors));
        if kept {
            match header_value_text(headers[i].1.as_slice()) {
                Some(text) => {
                    let ghost prev = text_headers_view(out@);
                    out.push((name.clone(), text));
                    assert(text_headers_view(out@) =~= prev.push(
                        (h[i as int].0, crate::encoding::ascii_chars(h[i as int].1)),
                    ));
                },
                None => {},
            }
        }
        i += 1;
    }
    out
}

/// What `String::from_utf8_lossy` makes of a body: UTF-8 decoded, with each
/// malformed sequence replaced by U+FFFD.
pub uninterp spec fn utf8_lossy(bytes: Seq<u8>) -> Seq<char>;

/// `String::from_utf8_lossy`, owned.
#[verifier::external_body]
fn decode_utf8_lossy(bytes: &[u8]) -> (r: String)
    ensures
        r@ == utf8_lossy(bytes@),
{
    String::from_utf8_lossy(bytes).into_owned()
}

/// A fetch completion read as plain values: `ok`, `name`, `error`, `body`,
/// and the response's status, status text, headers, URL, redirect flag, and
/// type.
pub open spec fn completion_view(c: FetchCompletion) -> (
    bool,
    Option<Seq<char>>,
    Option<Seq<char>>,
    Option<Seq<char>>,
    Option<(u16, Seq<char>, Seq<(Seq<char>, Seq<char>)>, Seq<char>, bool, Seq<char>)>,
) {
    (
        c.ok,
        opt_string_view(c.name),
        opt_string_view(c.error),
        opt_string_view(c.body),
        match c.response {
            Some(r) => Some(
                (
                    r.status,
                    r.status_text@,
                    text_headers_view(r.headers@),
                    r.url@,
                    r.redirected,
                    r.response_type@,
                ),
            ),
            None => None,
        },
    )
}

/// What a loaded response turns into: the redirect and same-origin checks,
/// the CORS check of a cross-origin CORS response, an opaque response for a
/// cross-origin no-CORS fetch, or the readable response.
pub open spec fn spec_finish_fetch(
    mode: Seq<char>,
    redirect: Seq<char>,
    redirected: bool,
    final_cross_origin: bool,
    document_origin: Seq<char>,
    credentials: CredentialsMode,
    status: u16,
    h: Seq<(Seq<char>, Seq<u8>)>,
    final_url: Seq<char>,
    body: Seq<u8>,
) -> Result<
    (
        bool,
        Option<Seq<char>>,
        Option<Seq<char>>,
        Option<Seq<char>>,
        Option<(u16, Seq<char>, Seq<(Seq<char>, Seq<char>)>, Seq<char>, bool, Seq<char>)>,
    ),
    Seq<char>,
> {
    if redirect == "error"@ && redirected {
        Err("fetch redirect blocked by redirect=error"@)
    } else if !(redirect == "follow"@ || redirect == "error"@) {
        Err("unsupported redirect mode "@ + redirect)
    } else if mode == "same-origin"@ && final_cross_origin {
        Err("same-origin fetch redirected cross-origin"@)
    } else if mode == "cors"@ && final_cross_origin && spec_validate_cors(
        h,
        document_origin,
        credentials,
    ) is Err {
        Err(spec_validate_cors(h, document_origin, credentials)->Err_0)
    } else if mode == "no-cors"@ && final_cross_origin {
        Ok(
            (
                true,
                None,
                None,
                Some(Seq::empty()),
                Some((0u16, Seq::empty(), Seq::empty(), Seq::empty(), false, "opaque"@)),
            ),
        )
    } else {
        Ok(
            (
                true,
                None,
                None,
                Some(utf8_lossy(body)),
                Some(
                    (
                        status,
                        match canonical_reason(status) {
                            Some(t) => t,
                            None => Seq::empty(),
                        },
                        spec_response_headers(h, final_cross_origin && mode == "cors"@),
                        final_url,
                        redirected,
                        if final_cross_origin {
                            "cors"@
                        } else {
                            "basic"@
                        },
                    ),
                ),
            ),
        )
    }
}

/// Turns a loaded response into what script sees of the fetch. `headers`
/// are the response's headers (lowercase names, raw values) in order,
/// `status` its status code, and `final_cross_origin` whether the final URL
/// is of another origin than the document (`document_origin`).
pub fn finish_fetch(
    mode: &str,
    redirect: &str,
    redirected: bool,
    final_cross_origin: bool,
    document_origin: &str,
    credentials: CredentialsMode,
    status: u16,
    headers: &[(String, Vec<u8>)],
    final_url: &str,
    body: &[u8],
) -> (r: Result<FetchCompletion, String>)
    requires
        100 <= status <= 999,
    ensures
        match r {
            Ok(c) => spec_finish_fetch(
                mode@,
                redirect@,
                redirected,
                final_cross_origin,
                document_origin@,
                credentials,
                status,
                raw_headers_view(headers@),
                final_url@,
                body@,
            ) == Ok::<_, Seq<char>>(completion_view(c)),
            Err(e) => spec_finish_fetch(
                mode@,
                redirect@,
                redirected,
                final_cross_origin,
                document_origin@,
                credentials,
                status,
                raw_headers_view(headers@),
                final_url@,
                body@,
            ) is Err && spec_finish_fetch(
                mode@,
                redirect@,
                redirected,
                final_cross_origin,
                document_origin@,
                credentials,
                status,
                raw_headers_view(headers@),
                final_url@,
                body@,
            )->Err_0 == e@,
        },
{
    let error_redirect = str_equal(redirect, "error");
    if error_redirect && redirected {
        return Err(string_of("fetch redirect blocked by redirect=error"));
    }
    if !(str_equal(redirect, "follow") || error_redirect) {
        return Err(message_with("unsupported redirect mode ", redirect));
    }
    let cors = str_equal(mode, "cors");
    if str_equal(mode, "same-origin") && final_cross_origin {
        return Err(string_of("same-origin fetch redirected cross-origin"));
    }
    if cors && final_cross_origin {
        match validate_cors_response(headers, document_origin, credentials) {
            Ok(()) => {},
            Err(e) => {
                return Err(e);
            },
        }
    }
    if str_equal(mode, "no-cors") && final_cross_origin {
        let c = FetchCompletion {
            ok: true,
            name: None,
            error: None,
            body: Some(String::new()),
            response: Some(
                FetchResponseInit {
                    status: 0,
                    status_text: String::new(),
                    headers: Vec::new(),
                    url: String::new(),
                    redirected: false,
                    response_type: string_of("opaque"),
                },
            ),
        };
        proof {
            let rv = c.response.unwrap();
            assert(text_headers_view(rv.headers@) =~= Seq::<(Seq<char>, Seq<char>)>::empty());
        }
        return Ok(c);
    }
    let exposed = response_headers(headers, final_cross_origin && cors);
    let status_text = match status_reason(status) {
        Some(t) => t,
        None => String::new(),
    };
    let text = decode_utf8_lossy(body);
    let response_type = if final_cross_origin {
        string_of("cors")
    } else {
        string_of("basic")
    };
    Ok(
        FetchCompletion {
            ok: true,
            name: None,
            error: None,
            body: Some(text),
            response: Some(
                FetchResponseInit {
                    status,
                    status_text,
                    headers: exposed,
                    url: string_of(final_url),
                    redirected,
                    response_type,
                },
            ),
        },
    )
}


proof fn lemma_less_irreflexive(a: Seq<char>)
    ensures
        !char_seq_less(a, a),
    decreases a.len(),
{
    if a.len() > 0 {
        lemma_less_irreflexive(a.drop_first());
    }
}

proof fn lemma_less_transitive(a: Seq<char>, b: Seq<char>, c: Seq<char>)
    requires
        char_seq_less(a, b),
        char_seq_less(b, c),
    ensures
        char_seq_less(a, c),
    decreases a.len(),
{
    if a.len() > 0 && b.len() > 0 && c.len() > 0 && a[0] == b[0] && b[0] == c[0] {
        lemma_less_transitive(a.drop_first(), b.drop_first(), c.drop_first());
    }
}

proof fn lemma_less_total(a: Seq<char>, b: Seq<char>)
    requires
        a != b,
    ensures
        char_seq_less(a, b) || char_seq_less(b, a),
    decreases a.len(),
{
    if a.len() == 0 && b.len() == 0 {
        assert(a =~= b);
    }
    if a.len() > 0 && b.len() > 0 && a[0] == b[0] {
        if a.drop_first() == b.drop_first() {
            assert(a =~= seq![a[0]] + a.drop_first());
            assert(b =~= seq![b[0]] + b.drop_first());
            assert(a == b);
        } else {
            lemma_less_total(a.drop_first(), b.drop_first());
        }
    }
}

/// Each element comes before the next, so no element occurs twice.
pub open spec fn strictly_sorted(s: Seq<Seq<char>>) -> bool {
    forall|i: int, j: int| 0 <= i < j < s.len() ==> char_seq_less(#[trigger] s[i], #[trigger] s[j])
}

proof fn lemma_sorted_insert_keeps_order(s: Seq<Seq<char>>, x: Seq<char>)
    requires
        strictly_sorted(s),
    ensures
        strictly_sorted(sorted_insert(s, x)),
        forall|y: Seq<char>| #[trigger] sorted_insert(s, x).contains(y) <==> (s.contains(y) || y == x),
    decreases s.len(),
{
    let r = sorted_insert(s, x);
    if s.len() == 0 {
        assert(r =~= seq![x]);
        assert forall|y: Seq<char>| #[trigger] r.contains(y) <==> (s.contains(y) || y == x) by {
            if r.contains(y) {
                assert(r[0] == y);
            }
            if y == x {
                assert(r[0] == y);
            }
        }
    } else if char_seq_less(s[0], x) {
        let t = s.drop_first();
        assert(strictly_sorted(t)) by {
            assert forall|i: int, j: int| 0 <= i < j < t.len() implies char_seq_less(
                #[trigger] t[i],
                #[trigger] t[j],
            ) by {
                assert(t[i] == s[i + 1] && t[j] == s[j + 1]);
            }
        }
        lemma_sorted_insert_keeps_order(t, x);
        let rest = sorted_insert(t, x);
        assert(r == seq![s[0]] + rest);
        assert forall|k: int| 0 <= k < rest.len() implies char_seq_less(s[0], #[trigger] rest[k]) by {
            assert(rest.contains(rest[k]));
            if rest[k] != x {
                assert(t.contains(rest[k]));
                let j = choose|j: int| 0 <= j < t.len() && t[j] == rest[k];
                assert(s[j + 1] == t[j]);
                assert(char_seq_less(s[0], s[j + 1]));
            }
        }
        assert forall|i: int, j: int| 0 <= i < j < r.len() implies char_seq_less(
            #[trigger] r[i],
            #[trigger] r[j],
        ) by {
            if i == 0 {
                assert(r[j] == rest[j - 1]);
            } else {
                assert(r[i] == rest[i - 1] && r[j] == rest[j - 1]);
            }
        }
        assert forall|y: Seq<char>| #[trigger] r.contains(y) <==> (s.contains(y) || y == x) by {
            if r.contains(y) {
                let k = choose|k: int| 0 <= k < r.len() && r[k] == y;
                if k == 0 {
                    assert(s[0] == y);
                } else {
                    assert(rest[k - 1] == y);
                    assert(rest.contains(y));
                    if y != x {
                        let j = choose|j: int| 0 <= j < t.len() && t[j] == y;
                        assert(s[j + 1] == y);
                    }
                }
            }
            if s.contains(y) {
                let k = choose|k: int| 0 <= k < s.len() && s[k] == y;
                if k == 0 {
                    assert(r[0] == y);
                } else {
                    assert(t[k - 1] == y);
                    assert(t.contains(y));
                    assert(rest.contains(y));
                    let m = choose|m: int| 0 <= m < rest.len() && rest[m] == y;
                    assert(r[m + 1] == y);
                }
            }
            if y == x {
                assert(rest.contains(x));
                let m = choose|m: int| 0 <= m < rest.len() && rest[m] == y;
                assert(r[m + 1] == y);
            }
        }
    } else if s[0] == x {
        assert forall|y: Seq<char>| #[trigger] r.contains(y) <==> (s.contains(y) || y == x) by {
            if y == x {
                assert(s[0] == y);
            }
        }
    } else {
        lemma_less_total(s[0], x);
        assert(r == seq![x] + s);
        assert forall|i: int, j: int| 0 <= i < j < r.len() implies char_seq_less(
            #[trigger] r[i],
            #[trigger] r[j],
        ) by {
            if i == 0 {
                assert(r[j] == s[j - 1]);
                if j - 1 > 0 {
                    lemma_less_transitive(x, s[0], s[j - 1]);
                }
            } else {
                assert(r[i] == s[i - 1] && r[j] == s[j - 1]);
            }
        }
        assert forall|y: Seq<char>| #[trigger] r.contains(y) <==> (s.contains(y) || y == x) by {
            if r.contains(y) {
                let k = choose|k: int| 0 <= k < r.len() && r[k] == y;
                if k > 0 {
                    assert(s[k - 1] == y);
                }
            }
            if s.contains(y) {
                let k = choose|k: int| 0 <= k < s.len() && s[k] == y;
                assert(r[k + 1] == y);
            }
            if y == x {
                assert(r[0] == y);
            }
        }
    }
}

/// The preflight header list holds each non-simple header name exactly
/// once, in sorted order, and nothing else.
pub proof fn law_non_simple_names_sorted_set(h: Seq<(Seq<char>, Seq<char>)>)
    ensures
        strictly_sorted(spec_non_simple_header_names(h)),
        forall|i: int, j: int|
            0 <= i < j < spec_non_simple_header_names(h).len() ==> #[trigger] spec_non_simple_header_names(
                h,
            )[i] != #[trigger] spec_non_simple_header_names(h)[j],
        forall|n: Seq<char>|
            #[trigger] spec_non_simple_header_names(h).contains(n) <==> exists|i: int|
                0 <= i < h.len() && h[i].0 == n && !spec_is_simple_header(h[i].0, h[i].1),
    decreases h.len(),
{
    if h.len() > 0 {
        let g = h.drop_last();
        law_non_simple_names_sorted_set(g);
        let prev = spec_non_simple_header_names(g);
        let (n0, v0) = h.last();
        if !spec_is_simple_header(n0, v0) {
            lemma_sorted_insert_keeps_order(prev, n0);
        }
        assert forall|n: Seq<char>| #[trigger] spec_non_simple_header_names(h).contains(n)
            <==> exists|i: int|
            0 <= i < h.len() && h[i].0 == n && !spec_is_simple_header(h[i].0, h[i].1) by {
            if exists|i: int|
                0 <= i < h.len() && h[i].0 == n && !spec_is_simple_header(h[i].0, h[i].1) {
                let i = choose|i: int|
                    0 <= i < h.len() && h[i].0 == n && !spec_is_simple_header(h[i].0, h[i].1);
                if i < g.len() {
                    assert(g[i] == h[i]);
                }
            }
            if exists|i: int|
                0 <= i < g.len() && g[i].0 == n && !spec_is_simple_header(g[i].0, g[i].1) {
                let i = choose|i: int|
                    0 <= i < g.len() && g[i].0 == n && !spec_is_simple_header(g[i].0, g[i].1);
                assert(h[i] == g[i]);
            }
        }
    } else {
        assert forall|n: Seq<char>| !#[trigger] spec_non_simple_header_names(h).contains(n) by {}
    }
    let names = spec_non_simple_header_names(h);
    assert forall|i: int, j: int| 0 <= i < j < names.len() implies #[trigger] names[i]
        != #[trigger] names[j] by {
        lemma_less_irreflexive(names[i]);
    }
}

/// Script never reads `Set-Cookie`, and of a cross-origin CORS response it
/// reads only safelisted headers and those that
/// `Access-Control-Expose-Headers` names; every header it reads is one the
/// response carried, as text.
pub proof fn law_response_headers_filtered(h: Seq<(Seq<char>, Seq<u8>)>, cors: bool)
    ensures
        forall|k: int|
            0 <= k < spec_response_headers(h, cors).len() ==> {
                let (n, v) = #[trigger] spec_response_headers(h, cors)[k];
                &&& n != "set-cookie"@
                &&& response_header_kept(h, n, cors)
                &&& exists|i: int|
                    0 <= i < h.len() && h[i].0 == n && header_bytes_are_text(h[i].1)
                        && crate::encoding::ascii_chars(h[i].1) == v
            },
{
    lemma_response_headers_upto_filtered(h, cors, h.len() as int);
}

proof fn lemma_response_headers_upto_filtered(h: Seq<(Seq<char>, Seq<u8>)>, cors: bool, m: int)
    requires
        0 <= m <= h.len(),
    ensures
        forall|k: int|
            0 <= k < response_headers_upto(h, cors, m).len() ==> {
                let (n, v) = #[trigger] response_headers_upto(h, cors, m)[k];
                &&& n != "set-cookie"@
                &&& response_header_kept(h, n, cors)
                &&& exists|i: int|
                    0 <= i < h.len() && h[i].0 == n && header_bytes_are_text(h[i].1)
                        && crate::encoding::ascii_chars(h[i].1) == v
            },
    decreases m,
{
    if m > 0 {
        lemma_response_headers_upto_filtered(h, cors, m - 1);
        let prev = response_headers_upto(h, cors, m - 1);
        let cur = response_headers_upto(h, cors, m);
        assert forall|k: int| 0 <= k < cur.len() implies {
            let (n, v) = #[trigger] cur[k];
            &&& n != "set-cookie"@
            &&& response_header_kept(h, n, cors)
            &&& exists|i: int|
                0 <= i < h.len() && h[i].0 == n && header_bytes_are_text(h[i].1)
                    && crate::encoding::ascii_chars(h[i].1) == v
        } by {
            if k < prev.len() {
                assert(cur[k] == prev[k]);
            } else {
                let i = m - 1;
                assert(cur[k] == (h[i].0, crate::encoding::ascii_chars(h[i].1)));
            }
        }
    }
}

/// A fetch adds `Origin` exactly when it is a cross-origin CORS request, and
/// only such a request is preflighted; the preflight lists exactly the
/// headers that are not simple.
pub proof fn law_plan_origin_and_preflight(
    http_family: bool,
    scheme: Seq<char>,
    method: Seq<char>,
    entries: Seq<(Seq<char>, Seq<char>)>,
    document_origin: Seq<char>,
    cross_origin: bool,
    mode: Seq<char>,
    credentials: Seq<char>,
)
    ensures
        spec_plan_fetch(
            http_family,
            scheme,
            method,
            entries,
            document_origin,
            cross_origin,
            mode,
            credentials,
        ) matches Ok(p) ==> {
            &&& p.3 == (cross_origin && mode == "cors"@)
            &&& p.4 ==> p.3
            &&& p.4 ==> p.5 == spec_non_simple_header_names(p.1)
            &&& !p.4 ==> p.5.len() == 0
            &&& p.0 == method
        },
{
}


/// Whether a queued fetch was aborted: its signal is among the aborted ones.
pub fn fetch_is_aborted(signal_id: Option<u64>, aborted: &[u64]) -> (r: bool)
    ensures
        r == match signal_id {
            Some(id) => aborted@.contains(id),
            None => false,
        },
{
    match signal_id {
        None => false,
        Some(id) => {
            let mut i: usize = 0;
            while i < aborted.len()
                invariant
                    i <= aborted.len(),
                    signal_id == Some(id),
                    forall|k: int| 0 <= k < i ==> aborted@[k] != id,
                decreases aborted.len() - i,
            {
                if aborted[i] == id {
                    assert(aborted@[i as int] == id);
                    return true;
                }
                i += 1;
            }
            false
        },
    }
}

/// The events that refuse a WebSocket connection before it is attempted,
/// as (error message, close reason): a URL that is not `ws` or `wss`, or a
/// content process whose network access goes through a broker.
pub open spec fn spec_websocket_refusal(scheme: Seq<char>, brokered: bool) -> Option<
    (Seq<char>, Seq<char>),
> {
    if !(scheme == "ws"@ || scheme == "wss"@) {
        Some(("WebSocket URL must use ws or wss"@, Seq::empty()))
    } else if brokered {
        Some(
            (
                "WebSocket broker support is not enabled for the isolated content process"@,
                "network permission denied"@,
            ),
        )
    } else {
        None
    }
}

/// The error and close events that refuse a WebSocket connection, or `None`
/// when the connection may be attempted.
pub fn refused_websocket_events(scheme: &str, brokered: bool) -> (r: Option<Vec<WebSocketEvent>>)
    ensures
        r is None <==> spec_websocket_refusal(scheme@, brokered) is None,
        r matches Some(events) ==> events@.len() == 2 && (events@[0] matches WebSocketEvent::Error {
            message,
        } && message@ == spec_websocket_refusal(scheme@, brokered)->Some_0.0) && (
        events@[1] matches WebSocketEvent::Close { code, reason, was_clean } && code == 1006
            && reason@ == spec_websocket_refusal(scheme@, brokered)->Some_0.1 && !was_clean),
{
    let (message, reason) = if !(str_equal(scheme, "ws") || str_equal(scheme, "wss")) {
        (string_of("WebSocket URL must use ws or wss"), String::new())
    } else if brokered {
        (
            string_of("WebSocket broker support is not enabled for the isolated content process"),
            string_of("network permission denied"),
        )
    } else {
        return None;
    };
    let mut events: Vec<WebSocketEvent> = Vec::new();
    events.push(WebSocketEvent::Error { message });
    events.push(WebSocketEvent::Close { code: 1006, reason, was_clean: false });
    Some(events)
}


/// The methods that need no preflight are exactly `GET`, `HEAD`, and
/// `POST`, case-sensitively: with no headers, a cross-origin CORS fetch of
/// any of them goes out without a preflight and a cross-origin no-CORS
/// fetch of any of them is allowed, while any other valid method is
/// preflighted in CORS mode and refused in no-CORS mode.
pub proof fn law_safelisted_methods(
    scheme: Seq<char>,
    method: Seq<char>,
    document_origin: Seq<char>,
    credentials: Seq<char>,
)
    requires
        valid_method(method),
        valid_header_value(document_origin),
        spec_credentials_mode(credentials) is Some,
    ensures
        spec_is_simple_method("GET"@),
        spec_is_simple_method("HEAD"@),
        spec_is_simple_method("POST"@),
        !spec_is_simple_method("get"@),
        !spec_is_simple_method("head"@),
        !spec_is_simple_method("PUT"@),
        !spec_is_simple_method("OPTIONS"@),
        spec_plan_fetch(
            true,
            scheme,
            method,
            Seq::empty(),
            document_origin,
            true,
            "cors"@,
            credentials,
        ) matches Ok(p) && p.3 && (p.4 <==> !(method == "GET"@ || method == "HEAD"@ || method
            == "POST"@)),
        (method == "GET"@ || method == "HEAD"@ || method == "POST"@) <==> spec_plan_fetch(
            true,
            scheme,
            method,
            Seq::empty(),
            document_origin,
            true,
            "no-cors"@,
            credentials,
        ) is Ok,
{
    reveal_strlit("GET");
    reveal_strlit("HEAD");
    reveal_strlit("POST");
    reveal_strlit("get");
    reveal_strlit("head");
    reveal_strlit("PUT");
    reveal_strlit("OPTIONS");
    reveal_strlit("cors");
    reveal_strlit("no-cors");
    reveal_strlit("same-origin");
    reveal_strlit("origin");
    reveal_strlit("content-type");
    reveal_strlit("accept");
    reveal_strlit("accept-language");
    reveal_strlit("content-language");
    assert("get"@[0] != "GET"@[0]);
    assert("head"@[0] != "HEAD"@[0]);
    assert("PUT"@[0] != "GET"@[0] && "PUT"@.len() != "HEAD"@.len() && "PUT"@.len() != "POST"@.len());
    assert("OPTIONS"@.len() != "GET"@.len() && "OPTIONS"@.len() != "HEAD"@.len()
        && "OPTIONS"@.len() != "POST"@.len());
    let e = Seq::<(Seq<char>, Seq<char>)>::empty();
    assert(spec_request_headers(e) == Ok::<Seq<(Seq<char>, Seq<char>)>, Seq<char>>(e));
    assert(spec_are_simple_headers(e));
    let hs = e.push(("origin"@, document_origin));
    assert(hs[0].0 == "origin"@);
    assert(spec_is_simple_header(hs[0].0, hs[0].1));
    assert(spec_are_simple_headers(hs));
    assert("cors"@.len() != "same-origin"@.len());
    assert("cors"@.len() != "no-cors"@.len());
    assert("no-cors"@.len() != "same-origin"@.len());
    let c = spec_credentials_mode(credentials)->Some_0;
    let cors_plan = spec_plan_fetch(true, scheme, method, e, document_origin, true, "cors"@, credentials);
    assert(cors_plan == Ok::<_, Seq<char>>(
        (
            method,
            hs,
            c,
            true,
            !spec_is_simple_method(method),
            if !spec_is_simple_method(method) {
                spec_non_simple_header_names(hs)
            } else {
                Seq::empty()
            },
        ),
    ));
}

} // verus!
