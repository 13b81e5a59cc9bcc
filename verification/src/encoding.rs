//! Document encoding detection: byte-order marks, the HTTP `charset`
//! parameter, and a `charset` declaration in the first kilobyte.
use vstd::prelude::*;
use crate::text_util::{
    ascii_lower_seq, is_ascii_ws_byte, split_on, trim_class, TrimClass, ascii_lower_byte,
};

verus! {

/// Source that selected the committed document encoding.
#[derive(Clone, Copy, Debug, PartialEq, Eq, Structural)]
pub enum CharsetSource {
    /// The synthetic `about:blank` document always uses UTF-8.
    AboutBlank,
    /// A Unicode byte-order mark.
    Bom,
    /// An HTTP `Content-Type` charset parameter.
    HttpHeader,
    /// A `<meta charset>` or equivalent declaration in the first 1024 bytes.
    Meta,
    /// The HTML fallback encoding.
    Default,
}

/// Canonical name of the encoding that a WHATWG encoding label denotes.
pub uninterp spec fn encoding_label_name(label: Seq<u8>) -> Option<Seq<char>>;

pub open spec fn utf16le_label() -> Seq<u8> {
    seq![0x75u8, 0x74, 0x66, 0x2d, 0x31, 0x36, 0x6c, 0x65]
}

pub open spec fn utf16be_label() -> Seq<u8> {
    seq![0x75u8, 0x74, 0x66, 0x2d, 0x31, 0x36, 0x62, 0x65]
}

pub open spec fn utf8_label() -> Seq<u8> {
    seq![0x75u8, 0x74, 0x66, 0x2d, 0x38]
}

pub open spec fn utf8_name() -> Seq<char> {
    seq!['U', 'T', 'F', '-', '8']
}

pub open spec fn utf16le_name() -> Seq<char> {
    seq!['U', 'T', 'F', '-', '1', '6', 'L', 'E']
}

pub open spec fn utf16be_name() -> Seq<char> {
    seq!['U', 'T', 'F', '-', '1', '6', 'B', 'E']
}

pub open spec fn windows_1252_name() -> Seq<char> {
    seq!['w', 'i', 'n', 'd', 'o', 'w', 's', '-', '1', '2', '5', '2']
}

/// `encoding_rs::Encoding::for_label`, giving the canonical name of the
/// encoding found. Its result is named `encoding_label_name`; its source maps
/// the labels `utf-8`, `utf-16le` and `utf-16be` to the encodings named
/// `UTF-8`, `UTF-16LE` and `UTF-16BE`, and that is all that is stated of
/// particular labels.
#[verifier::external_body]
fn encoding_for_label(label: &[u8]) -> (r: Option<String>)
    ensures
        match r {
            Some(n) => encoding_label_name(label@) == Some(n@),
            None => encoding_label_name(label@) is None,
        },
        label@ == utf8_label() ==> r is Some && r->0@ == utf8_name(),
        label@ == utf16le_label() ==> r is Some && r->0@ == utf16le_name(),
        label@ == utf16be_label() ==> r is Some && r->0@ == utf16be_name(),
{
    encoding_rs::Encoding::for_label(label).map(|encoding| encoding.name().to_string())
}

/// The name of `encoding_rs::UTF_8`, which its source gives as `UTF-8`.
#[verifier::external_body]
fn utf8_encoding_name() -> (r: String)
    ensures
        r@ == utf8_name(),
{
    encoding_rs::UTF_8.name().to_string()
}

/// The name of `encoding_rs::WINDOWS_1252`, which its source gives as
/// `windows-1252`.
#[verifier::external_body]
fn windows_1252_encoding_name() -> (r: String)
    ensures
        r@ == windows_1252_name(),
{
    encoding_rs::WINDOWS_1252.name().to_string()
}

pub open spec fn charset_chars() -> Seq<char> {
    seq!['c', 'h', 'a', 'r', 's', 'e', 't']
}

pub open spec fn charset_bytes() -> Seq<u8> {
    seq![0x63u8, 0x68, 0x61, 0x72, 0x73, 0x65, 0x74]
}

/// Index of the first `c` in `s`.
pub open spec fn first_index_of(s: Seq<char>, c: char) -> Option<int>
    decreases s.len(),
{
    if s.len() == 0 {
        None
    } else if s[0] == c {
        Some(0)
    } else {
        match first_index_of(s.drop_first(), c) {
            Some(i) => Some(i + 1),
            None => None,
        }
    }
}

/// The value of one `name=value` parameter when its name is `charset`
/// (ASCII case-insensitively, around whitespace) and its value, without
/// whitespace and quotes around it, is not empty.
pub open spec fn param_charset(p: Seq<char>) -> Option<Seq<char>> {
    match first_index_of(p, '=') {
        None => None,
        Some(i) => {
            let name = trim_class(p.take(i), TrimClass::Whitespace);
            let value = trim_class(trim_class(p.skip(i + 1), TrimClass::Whitespace), TrimClass::Quotes);
            if ascii_lower_seq(name) != charset_chars() || value.len() == 0 {
                None
            } else {
                Some(value)
            }
        }
    }
}

pub open spec fn first_charset_param(segments: Seq<Seq<char>>, i: int) -> Option<Seq<char>>
    decreases segments.len() - i,
{
    if i < 0 || i >= segments.len() {
        None
    } else {
        match param_charset(segments[i]) {
            Some(v) => Some(v),
            None => first_charset_param(segments, i + 1),
        }
    }
}

/// The first `charset` parameter of a `Content-Type` value, looking only at
/// the parameters after the first `;`.
pub open spec fn spec_charset_parameter(content_type: Seq<char>) -> Option<Seq<char>> {
    first_charset_param(split_on(content_type, ';'), 1)
}

/// The first 1024 bytes, ASCII bytes lowercased, other bytes as spaces.
pub open spec fn meta_sample(bytes: Seq<u8>) -> Seq<u8> {
    let n = if bytes.len() < 1024 {
        bytes.len() as int
    } else {
        1024int
    };
    Seq::new(n as nat, |i: int| if bytes[i] < 128 { ascii_lower_byte(bytes[i]) } else { 0x20u8 })
}

/// First index at or after `from` where `charset` starts.
pub open spec fn find_charset(s: Seq<u8>, from: int) -> Option<int>
    decreases s.len() - from,
{
    if from < 0 || from + 7 > s.len() {
        None
    } else if s.subrange(from, from + 7) == charset_bytes() {
        Some(from)
    } else {
        find_charset(s, from + 1)
    }
}

/// First index at or after `c` that is not ASCII whitespace.
pub open spec fn skip_ws(s: Seq<u8>, c: int) -> int
    decreases s.len() - c,
{
    if 0 <= c < s.len() && is_ascii_ws_byte(s[c]) {
        skip_ws(s, c + 1)
    } else {
        c
    }
}

/// Whether `b` ends a declared value: the closing quote when the value is
/// quoted, else whitespace, `;`, `/` or `>`.
pub open spec fn ends_value(b: u8, quote: Option<u8>) -> bool {
    match quote {
        Some(q) => b == q,
        None => is_ascii_ws_byte(b) || b == 0x3b || b == 0x2f || b == 0x3e,
    }
}

/// First index at or after `c` that ends the value.
pub open spec fn value_end(s: Seq<u8>, c: int, quote: Option<u8>) -> int
    decreases s.len() - c,
{
    if 0 <= c < s.len() && !ends_value(s[c], quote) {
        value_end(s, c + 1, quote)
    } else {
        c
    }
}

pub proof fn lemma_skip_ws_bounds(s: Seq<u8>, c: int)
    ensures
        c <= skip_ws(s, c),
        0 <= c <= s.len() ==> skip_ws(s, c) <= s.len(),
    decreases s.len() - c,
{
    if 0 <= c < s.len() && is_ascii_ws_byte(s[c]) {
        lemma_skip_ws_bounds(s, c + 1);
    }
}

pub proof fn lemma_value_end_bounds(s: Seq<u8>, c: int, quote: Option<u8>)
    ensures
        c <= value_end(s, c, quote),
        0 <= c <= s.len() ==> value_end(s, c, quote) <= s.len(),
    decreases s.len() - c,
{
    if 0 <= c < s.len() && !ends_value(s[c], quote) {
        lemma_value_end_bounds(s, c + 1, quote);
    }
}

pub proof fn lemma_find_charset_bounds(s: Seq<u8>, from: int)
    ensures
        match find_charset(s, from) {
            Some(i) => from <= i && i + 7 <= s.len() && s.subrange(i, i + 7) == charset_bytes(),
            None => true,
        },
    decreases s.len() - from,
{
    if !(from < 0 || from + 7 > s.len()) && s.subrange(from, from + 7) != charset_bytes() {
        lemma_find_charset_bounds(s, from + 1);
    }
}

/// The scan for a declared charset from `from` on: `Some(Some(v))` when a
/// `charset` followed by `=` gives the nonempty value `v`, `Some(None)` when
/// none does, and `None` when the scan would index past the end of the
/// sample (after an empty value at its very end).
pub open spec fn meta_scan(s: Seq<u8>, from: int) -> Option<Option<Seq<u8>>>
    decreases s.len() + 1 - from,
{
    if from < 0 || from > s.len() {
        None
    } else {
        match find_charset(s, from) {
            None => Some(None),
            Some(idx) => {
                let c1 = skip_ws(s, idx + 7);
                proof {
                    lemma_find_charset_bounds(s, from);
                    lemma_skip_ws_bounds(s, idx + 7);
                }
                if !(c1 < s.len() && s[c1] == 0x3d) {
                    meta_scan(s, c1)
                } else {
                    let c2 = skip_ws(s, c1 + 1);
                    let quote = if c2 < s.len() && (s[c2] == 0x27 || s[c2] == 0x22) {
                        Some(s[c2])
                    } else {
                        None
                    };
                    let start = if quote is Some {
                        c2 + 1
                    } else {
                        c2
                    };
                    let end = value_end(s, start, quote);
                    proof {
                        lemma_skip_ws_bounds(s, c1 + 1);
                        lemma_value_end_bounds(s, start, quote);
                    }
                    if end > start {
                        Some(Some(s.subrange(start, end)))
                    } else {
                        meta_scan(s, end + 1)
                    }
                }
            },
        }
    }
}

/// ASCII bytes read as characters.
pub open spec fn ascii_chars(v: Seq<u8>) -> Seq<char> {
    Seq::new(v.len(), |i: int| v[i] as char)
}

/// Whether the scan for a declared charset in `bytes` stays within them.
pub open spec fn meta_scan_ok(bytes: Seq<u8>) -> bool {
    meta_scan(meta_sample(bytes), 0) is Some
}

/// The charset that the first 1024 bytes declare.
pub open spec fn spec_meta_charset(bytes: Seq<u8>) -> Option<Seq<char>> {
    match meta_scan(meta_sample(bytes), 0) {
        Some(Some(v)) => Some(ascii_chars(v)),
        _ => None,
    }
}

pub open spec fn has_utf8_bom(b: Seq<u8>) -> bool {
    b.len() >= 3 && b[0] == 0xEF && b[1] == 0xBB && b[2] == 0xBF
}

pub open spec fn has_utf16le_bom(b: Seq<u8>) -> bool {
    b.len() >= 2 && b[0] == 0xFF && b[1] == 0xFE
}

pub open spec fn has_utf16be_bom(b: Seq<u8>) -> bool {
    b.len() >= 2 && b[0] == 0xFE && b[1] == 0xFF
}

pub open spec fn has_bom(b: Seq<u8>) -> bool {
    has_utf8_bom(b) || has_utf16le_bom(b) || has_utf16be_bom(b)
}

/// The encoding that the `Content-Type` charset parameter names.
pub open spec fn header_encoding(content_type: Option<Seq<char>>) -> Option<Seq<char>> {
    match content_type {
        Some(c) => match spec_charset_parameter(c) {
            Some(label) => encoding_label_name(vstd::utf8::encode_utf8(label)),
            None => None,
        },
        None => None,
    }
}

/// The encoding that a declaration in the first kilobyte names.
pub open spec fn meta_encoding(bytes: Seq<u8>) -> Option<Seq<char>> {
    match spec_meta_charset(bytes) {
        Some(label) => encoding_label_name(vstd::utf8::encode_utf8(label)),
        None => None,
    }
}

/// Encoding and source chosen from the labels' encodings: the header's,
/// else the declaration's, else windows-1252.
pub open spec fn spec_encoding_after_labels(
    header: Option<Seq<char>>,
    meta: Option<Seq<char>>,
) -> (Seq<char>, CharsetSource) {
    match header {
        Some(n) => (n, CharsetSource::HttpHeader),
        None => match meta {
            Some(n) => (n, CharsetSource::Meta),
            None => (windows_1252_name(), CharsetSource::Default),
        },
    }
}

/// The encoding of a document: a byte-order mark wins, then the HTTP charset
/// parameter, then a declaration in the first kilobyte, then windows-1252.
pub open spec fn spec_sniff_encoding(bytes: Seq<u8>, content_type: Option<Seq<char>>) -> (
    Seq<char>,
    CharsetSource,
) {
    if has_utf8_bom(bytes) {
        (utf8_name(), CharsetSource::Bom)
    } else if has_utf16le_bom(bytes) {
        (utf16le_name(), CharsetSource::Bom)
    } else if has_utf16be_bom(bytes) {
        (utf16be_name(), CharsetSource::Bom)
    } else {
        spec_encoding_after_labels(header_encoding(content_type), meta_encoding(bytes))
    }
}

/// Whether detection reaches the declaration scan and that scan would run
/// past the end of the sample.
pub open spec fn sniff_overruns(bytes: Seq<u8>, content_type: Option<Seq<char>>) -> bool {
    !has_bom(bytes) && header_encoding(content_type) is None && !meta_scan_ok(bytes)
}

pub open spec fn opt_str_view(s: Option<&str>) -> Option<Seq<char>> {
    match s {
        Some(t) => Some(t@),
        None => None,
    }
}

} // verus!

verus! {

proof fn lemma_first_index_found(s: Seq<char>, c: char, i: int)
    requires
        0 <= i < s.len(),
        s[i] == c,
        forall|j: int| 0 <= j < i ==> s[j] != c,
    ensures
        first_index_of(s, c) == Some(i),
    decreases i,
{
    if i > 0 {
        lemma_first_index_found(s.drop_first(), c, i - 1);
    }
}

proof fn lemma_first_index_absent(s: Seq<char>, c: char)
    requires
        forall|j: int| 0 <= j < s.len() ==> s[j] != c,
    ensures
        first_index_of(s, c) is None,
    decreases s.len(),
{
    if s.len() > 0 {
        lemma_first_index_absent(s.drop_first(), c);
    }
}

/// Index of the first `c` in `s`.
pub fn find_char(s: &[char], c: char) -> (r: Option<usize>)
    ensures
        match r {
            Some(i) => first_index_of(s@, c) == Some(i as int) && i < s@.len(),
            None => first_index_of(s@, c) is None,
        },
{
    let mut i: usize = 0;
    while i < s.len()
        invariant
            i <= s@.len(),
            forall|j: int| 0 <= j < i ==> s@[j] != c,
        decreases s@.len() - i,
    {
        if s[i] == c {
            proof {
                lemma_first_index_found(s@, c, i as int);
            }
            return Some(i);
        }
        i += 1;
    }
    proof {
        lemma_first_index_absent(s@, c);
    }
    None
}

/// The characters of `s` from `a` up to `b`.
pub fn slice_to_vec(s: &[char], a: usize, b: usize) -> (r: Vec<char>)
    requires
        a <= b <= s@.len(),
    ensures
        r@ == s@.subrange(a as int, b as int),
{
    let mut out: Vec<char> = Vec::new();
    let mut i: usize = a;
    while i < b
        invariant
            a <= i <= b,
            b <= s@.len(),
            out@ == s@.subrange(a as int, i as int),
        decreases b - i,
    {
        out.push(s[i]);
        assert(out@ =~= s@.subrange(a as int, i + 1));
        i += 1;
    }
    out
}

/// The value of one parameter when it is a nonempty `charset` value.
fn param_charset_value(p: &[char]) -> (r: Option<Vec<char>>)
    ensures
        match r {
            Some(v) => param_charset(p@) == Some(v@),
            None => param_charset(p@) is None,
        },
{
    match find_char(p, '=') {
        None => None,
        Some(i) => {
            let n = p.len();
            let name_part = slice_to_vec(p, 0, i);
            let value_part = slice_to_vec(p, i + 1, n);
            assert(name_part@ =~= p@.take(i as int));
            assert(value_part@ =~= p@.skip(i + 1));
            let name = crate::text_util::trim_chars(name_part.as_slice(), TrimClass::Whitespace);
            let lowered = crate::text_util::chars_to_ascii_lowercase(name.as_slice());
            let trimmed = crate::text_util::trim_chars(value_part.as_slice(), TrimClass::Whitespace);
            let value = crate::text_util::trim_chars(trimmed.as_slice(), TrimClass::Quotes);
            let expected: Vec<char> = vec!['c', 'h', 'a', 'r', 's', 'e', 't'];
            assert(expected@ =~= charset_chars());
            if !crate::text_util::chars_equal(lowered.as_slice(), expected.as_slice()) || value.len()
                == 0 {
                None
            } else {
                Some(value)
            }
        },
    }
}

/// The first `charset` parameter of a `Content-Type` value.
pub fn charset_parameter(content_type: &str) -> (r: Option<String>)
    ensures
        match r {
            Some(v) => spec_charset_parameter(content_type@) == Some(v@),
            None => spec_charset_parameter(content_type@) is None,
        },
{
    let chars = crate::text_util::str_to_chars(content_type);
    let segments = crate::text_util::split_chars(chars.as_slice(), ';');
    let ghost segs = split_on(content_type@, ';');
    let mut i: usize = 1;
    while i < segments.len()
        invariant
            1 <= i,
            segs == split_on(content_type@, ';'),
            segs == Seq::new(segments@.len(), |k: int| segments@[k]@),
            i <= segments@.len() || segments@.len() < 1,
            first_charset_param(segs, 1) == first_charset_param(segs, i as int),
        decreases segments@.len() - i,
    {
        let found = param_charset_value(segments[i].as_slice());
        assert(segs[i as int] == segments@[i as int]@);
        match found {
            Some(v) => {
                assert(first_charset_param(segs, i as int) == Some(v@));
                return Some(crate::text_util::chars_to_string(v.as_slice()));
            },
            None => {},
        }
        i += 1;
    }
    None
}

/// The lowercased ASCII sample of the first kilobyte.
fn build_sample(bytes: &[u8]) -> (r: Vec<u8>)
    ensures
        r@ == meta_sample(bytes@),
{
    let n: usize = if bytes.len() < 1024 {
        bytes.len()
    } else {
        1024
    };
    let mut out: Vec<u8> = Vec::new();
    let mut i: usize = 0;
    while i < n
        invariant
            i <= n,
            n <= bytes@.len(),
            n == (if bytes@.len() < 1024 { bytes@.len() as int } else { 1024int }),
            out@ == meta_sample(bytes@).take(i as int),
        decreases n - i,
    {
        let b = bytes[i];
        let mapped = if b < 128 {
            crate::text_util::byte_to_ascii_lowercase(b)
        } else {
            0x20u8
        };
        out.push(mapped);
        assert(out@ =~= meta_sample(bytes@).take(i + 1));
        i += 1;
    }
    assert(meta_sample(bytes@).take(n as int) =~= meta_sample(bytes@));
    out
}

fn find_charset_from(s: &Vec<u8>, from: usize) -> (r: Option<usize>)
    ensures
        match r {
            Some(i) => find_charset(s@, from as int) == Some(i as int),
            None => find_charset(s@, from as int) is None,
        },
{
    let mut i: usize = from;
    while i < s.len() && s.len() - i >= 7
        invariant
            from <= i,
            find_charset(s@, from as int) == find_charset(s@, i as int),
        decreases s@.len() - i,
    {
        if s[i] == 0x63 && s[i + 1] == 0x68 && s[i + 2] == 0x61 && s[i + 3] == 0x72 && s[i + 4]
            == 0x73 && s[i + 5] == 0x65 && s[i + 6] == 0x74 {
            assert(s@.subrange(i as int, i + 7) =~= charset_bytes());
            return Some(i);
        }
        assert(s@.subrange(i as int, i + 7) != charset_bytes()) by {
            if s@.subrange(i as int, i + 7) == charset_bytes() {
                assert(s@.subrange(i as int, i + 7)[0] == s@[i as int]);
                assert(s@.subrange(i as int, i + 7)[1] == s@[i + 1]);
                assert(s@.subrange(i as int, i + 7)[2] == s@[i + 2]);
                assert(s@.subrange(i as int, i + 7)[3] == s@[i + 3]);
                assert(s@.subrange(i as int, i + 7)[4] == s@[i + 4]);
                assert(s@.subrange(i as int, i + 7)[5] == s@[i + 5]);
                assert(s@.subrange(i as int, i + 7)[6] == s@[i + 6]);
            }
        }
        i += 1;
    }
    None
}

fn skip_ws_from(s: &Vec<u8>, c: usize) -> (r: usize)
    requires
        c <= s@.len(),
    ensures
        r == skip_ws(s@, c as int),
        c <= r <= s@.len(),
{
    let mut i = c;
    while i < s.len() && crate::text_util::byte_is_ascii_whitespace(s[i])
        invariant
            c <= i <= s@.len(),
            skip_ws(s@, c as int) == skip_ws(s@, i as int),
        decreases s@.len() - i,
    {
        i += 1;
    }
    i
}

fn ends_value_at(b: u8, quote: Option<u8>) -> (r: bool)
    ensures
        r == ends_value(b, quote),
{
    match quote {
        Some(q) => b == q,
        None => crate::text_util::byte_is_ascii_whitespace(b) || b == 0x3b || b == 0x2f || b
            == 0x3e,
    }
}

fn value_end_from(s: &Vec<u8>, c: usize, quote: Option<u8>) -> (r: usize)
    requires
        c <= s@.len(),
    ensures
        r == value_end(s@, c as int, quote),
        c <= r <= s@.len(),
{
    let mut i = c;
    while i < s.len() && !ends_value_at(s[i], quote)
        invariant
            c <= i <= s@.len(),
            value_end(s@, c as int, quote) == value_end(s@, i as int, quote),
        decreases s@.len() - i,
    {
        i += 1;
    }
    i
}

fn ascii_string(s: &Vec<u8>, a: usize, b: usize) -> (r: String)
    requires
        a <= b <= s@.len(),
        forall|i: int| 0 <= i < s@.len() ==> s@[i] < 128,
    ensures
        r@ == ascii_chars(s@.subrange(a as int, b as int)),
{
    let mut out = String::new();
    let mut i = a;
    while i < b
        invariant
            a <= i <= b,
            b <= s@.len(),
            out@ == ascii_chars(s@.subrange(a as int, i as int)),
        decreases b - i,
    {
        let byte = s[i];
        crate::text_util::string_push(&mut out, byte as char);
        assert(out@ =~= ascii_chars(s@.subrange(a as int, i + 1)));
        i += 1;
    }
    out
}

/// The charset that a declaration in the first 1024 bytes names.
pub fn sniff_meta_charset(bytes: &[u8]) -> (r: Option<String>)
    requires
        meta_scan_ok(bytes@),
    ensures
        match r {
            Some(v) => spec_meta_charset(bytes@) == Some(v@),
            None => spec_meta_charset(bytes@) is None,
        },
{
    let sample = build_sample(bytes);
    let ghost s = sample@;
    assert(forall|i: int| 0 <= i < s.len() ==> s[i] < 128);
    let mut search_from: usize = 0;
    loop
        invariant
            s == sample@,
            s == meta_sample(bytes@),
            forall|i: int| 0 <= i < s.len() ==> s[i] < 128,
            search_from <= s.len(),
            meta_scan(s, 0) == meta_scan(s, search_from as int),
            meta_scan(s, 0) is Some,
        decreases s.len() + 1 - search_from,
    {
        proof {
            lemma_find_charset_bounds(s, search_from as int);
        }
        match find_charset_from(&sample, search_from) {
            None => {
                return None;
            },
            Some(idx) => {
                proof {
                    lemma_skip_ws_bounds(s, idx + 7);
                }
                let c1 = skip_ws_from(&sample, idx + 7);
                if !(c1 < sample.len() && sample[c1] == 0x3d) {
                    search_from = c1;
                } else {
                    let c2 = skip_ws_from(&sample, c1 + 1);
                    let quote: Option<u8> = if c2 < sample.len() && (sample[c2] == 0x27
                        || sample[c2] == 0x22) {
                        Some(sample[c2])
                    } else {
                        None
                    };
                    let start = if quote.is_some() {
                        c2 + 1
                    } else {
                        c2
                    };
                    let end = value_end_from(&sample, start, quote);
                    if end > start {
                        return Some(ascii_string(&sample, start, end));
                    }
                    search_from = end + 1;
                }
            },
        }
    }
}

/// Encoding and source from the encodings that the header's and the
/// declaration's labels name.
pub fn encoding_after_labels(header: Option<String>, meta: Option<String>) -> (r: (
    String,
    CharsetSource,
))
    ensures
        (r.0@, r.1) == spec_encoding_after_labels(
            match header {
                Some(h) => Some(h@),
                None => None,
            },
            match meta {
                Some(m) => Some(m@),
                None => None,
            },
        ),
{
    match header {
        Some(h) => (h, CharsetSource::HttpHeader),
        None => match meta {
            Some(m) => (m, CharsetSource::Meta),
            None => (windows_1252_encoding_name(), CharsetSource::Default),
        },
    }
}

/// Detects a document's encoding (by its canonical name) and where it came
/// from.
pub fn sniff_encoding(bytes: &[u8], content_type: Option<&str>) -> (r: (String, CharsetSource))
    requires
        !sniff_overruns(bytes@, opt_str_view(content_type)),
    ensures
        (r.0@, r.1) == spec_sniff_encoding(bytes@, opt_str_view(content_type)),
{
    if bytes.len() >= 3 && bytes[0] == 0xEF && bytes[1] == 0xBB && bytes[2] == 0xBF {
        return (utf8_encoding_name(), CharsetSource::Bom);
    }
    if bytes.len() >= 2 && bytes[0] == 0xFF && bytes[1] == 0xFE {
        let label: [u8; 8] = [0x75, 0x74, 0x66, 0x2d, 0x31, 0x36, 0x6c, 0x65];
        assert(label@ =~= utf16le_label());
        let name = encoding_for_label(&label);
        return (name.unwrap(), CharsetSource::Bom);
    }
    if bytes.len() >= 2 && bytes[0] == 0xFE && bytes[1] == 0xFF {
        let label: [u8; 8] = [0x75, 0x74, 0x66, 0x2d, 0x31, 0x36, 0x62, 0x65];
        assert(label@ =~= utf16be_label());
        let name = encoding_for_label(&label);
        return (name.unwrap(), CharsetSource::Bom);
    }
    let header = header_label_encoding(content_type);
    if header.is_some() {
        return encoding_after_labels(header, None);
    }
    let meta = match sniff_meta_charset(bytes) {
        Some(label) => encoding_for_label(label.as_str().as_bytes()),
        None => None,
    };
    encoding_after_labels(None, meta)
}

/// Like `sniff_encoding`, or `None` for the inputs on which the declaration
/// scan would run past the end of the sample.
pub fn sniff_encoding_checked(bytes: &[u8], content_type: Option<&str>) -> (r: Option<(
    String,
    CharsetSource,
)>)
    ensures
        r is None <==> sniff_overruns(bytes@, opt_str_view(content_type)),
        r matches Some(found) ==> (found.0@, found.1) == spec_sniff_encoding(
            bytes@,
            opt_str_view(content_type),
        ),
{
    let bom = (bytes.len() >= 3 && bytes[0] == 0xEF && bytes[1] == 0xBB && bytes[2] == 0xBF) || (
    bytes.len() >= 2 && bytes[0] == 0xFF && bytes[1] == 0xFE) || (bytes.len() >= 2 && bytes[0]
        == 0xFE && bytes[1] == 0xFF);
    if !bom && header_label_encoding(content_type).is_none() && !meta_scan_within(bytes) {
        return None;
    }
    Some(sniff_encoding(bytes, content_type))
}

/// The encoding that the header's charset parameter names.
fn header_label_encoding(content_type: Option<&str>) -> (r: Option<String>)
    ensures
        match r {
            Some(n) => header_encoding(opt_str_view(content_type)) == Some(n@),
            None => header_encoding(opt_str_view(content_type)) is None,
        },
{
    match content_type {
        Some(ct) => match charset_parameter(ct) {
            Some(label) => encoding_for_label(label.as_str().as_bytes()),
            None => None,
        },
        None => None,
    }
}

/// Whether the declaration scan of `bytes` stays within the sample.
fn meta_scan_within(bytes: &[u8]) -> (r: bool)
    ensures
        r == meta_scan_ok(bytes@),
{
    let sample = build_sample(bytes);
    let ghost s = sample@;
    let mut search_from: usize = 0;
    loop
        invariant
            s == sample@,
            s == meta_sample(bytes@),
            search_from <= s.len(),
            meta_scan(s, 0) == meta_scan(s, search_from as int),
        decreases s.len() + 1 - search_from,
    {
        proof {
            lemma_find_charset_bounds(s, search_from as int);
        }
        match find_charset_from(&sample, search_from) {
            None => {
                return true;
            },
            Some(idx) => {
                proof {
                    lemma_skip_ws_bounds(s, idx + 7);
                }
                let c1 = skip_ws_from(&sample, idx + 7);
                if !(c1 < sample.len() && sample[c1] == 0x3d) {
                    search_from = c1;
                } else {
                    let c2 = skip_ws_from(&sample, c1 + 1);
                    let quote: Option<u8> = if c2 < sample.len() && (sample[c2] == 0x27
                        || sample[c2] == 0x22) {
                        Some(sample[c2])
                    } else {
                        None
                    };
                    let start = if quote.is_some() {
                        c2 + 1
                    } else {
                        c2
                    };
                    let end = value_end_from(&sample, start, quote);
                    if end > start {
                        return true;
                    }
                    if end == sample.len() {
                        assert(meta_scan(s, end + 1) is None);
                        return false;
                    }
                    search_from = end + 1;
                }
            },
        }
    }
}

} // verus!

use vstd::utf8::encode_utf8;

verus! {

/// What `encoding_rs` decodes `bytes` to (BOM sniffing and replacement
/// characters included) with the encoding that `label` names, if any.
pub uninterp spec fn label_decoding(label: Seq<u8>, bytes: Seq<u8>) -> Option<Seq<char>>;

/// `Encoding::for_label(label)` followed by `Encoding::decode(bytes)`: the
/// text is named `label_decoding`, and there is text exactly when the label
/// names an encoding.
#[verifier::external_body]
fn decode_with_label(label: &[u8], bytes: &[u8]) -> (r: Option<String>)
    ensures
        match r {
            Some(s) => label_decoding(label@, bytes@) == Some(s@),
            None => label_decoding(label@, bytes@) is None,
        },
        (r is Some) == (encoding_label_name(label@) is Some),
{
    encoding_rs::Encoding::for_label(label).map(|encoding| encoding.decode(bytes).0.into_owned())
}

/// What `encoding_rs::UTF_8.decode` gives for `bytes`.
pub uninterp spec fn utf8_decoding(bytes: Seq<u8>) -> Seq<char>;

/// `UTF_8.decode(bytes)`: named `utf8_decoding`; valid UTF-8 that does not
/// start with a byte-order mark decodes to the text it encodes.
#[verifier::external_body]
fn decode_utf8(bytes: &[u8]) -> (r: String)
    ensures
        r@ == utf8_decoding(bytes@),
        forall|s: Seq<char>|
            bytes@ == encode_utf8(s) && !(s.len() > 0 && s[0] == '\u{feff}') ==> r@ == s,
{
    encoding_rs::UTF_8.decode(bytes).0.into_owned()
}

/// Text of a script or stylesheet body: decoded with the `Content-Type`
/// charset when it names an encoding, else as UTF-8.
pub open spec fn spec_decode_resource(bytes: Seq<u8>, content_type: Option<Seq<char>>) -> Seq<char> {
    let label = match content_type {
        Some(ct) => spec_charset_parameter(ct),
        None => None,
    };
    match label {
        Some(l) => match label_decoding(encode_utf8(l), bytes) {
            Some(s) => s,
            None => utf8_decoding(bytes),
        },
        None => utf8_decoding(bytes),
    }
}

fn decode_resource(bytes: &[u8], content_type: Option<&str>) -> (r: String)
    ensures
        r@ == spec_decode_resource(bytes@, opt_str_view(content_type)),
        (match content_type {
            Some(ct) => spec_charset_parameter(ct@) is None,
            None => true,
        }) ==> forall|s: Seq<char>|
            bytes@ == encode_utf8(s) && !(s.len() > 0 && s[0] == '\u{feff}') ==> r@ == s,
{
    let label = match content_type {
        Some(ct) => charset_parameter(ct),
        None => None,
    };
    match label {
        Some(l) => match decode_with_label(l.as_str().as_bytes(), bytes) {
            Some(s) => s,
            None => decode_utf8(bytes),
        },
        None => decode_utf8(bytes),
    }
}

/// Source text of a classic script body.
pub fn decode_classic_script(bytes: &[u8], content_type: Option<&str>) -> (r: String)
    ensures
        r@ == spec_decode_resource(bytes@, opt_str_view(content_type)),
        (match content_type {
            Some(ct) => spec_charset_parameter(ct@) is None,
            None => true,
        }) ==> forall|s: Seq<char>|
            bytes@ == encode_utf8(s) && !(s.len() > 0 && s[0] == '\u{feff}') ==> r@ == s,
{
    decode_resource(bytes, content_type)
}

/// Source text of a stylesheet body.
pub fn decode_stylesheet(bytes: &[u8], content_type: Option<&str>) -> (r: String)
    ensures
        r@ == spec_decode_resource(bytes@, opt_str_view(content_type)),
        (match content_type {
            Some(ct) => spec_charset_parameter(ct@) is None,
            None => true,
        }) ==> forall|s: Seq<char>|
            bytes@ == encode_utf8(s) && !(s.len() > 0 && s[0] == '\u{feff}') ==> r@ == s,
{
    decode_resource(bytes, content_type)
}

} // verus!

verus! {

/// What loading a subresource's URL gave.
#[derive(Debug)]
pub enum LoadOutcome {
    /// A response: its status code (100 to 999), final URL, content type and body.
    Response {
        status: u16,
        final_url: String,
        content_type: Option<String>,
        body: Vec<u8>,
    },
    /// The load failed with this message.
    Failed { message: String },
    /// The load was cancelled.
    Cancelled,
}

} // verus!
