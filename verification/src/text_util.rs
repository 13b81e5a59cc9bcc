//! Character classification and small string helpers shared by the text,
//! font, style, and encoding modules.
use vstd::prelude::*;

verus! {

/// The Unicode `White_Space` property (the set `char::is_whitespace` tests).
pub open spec fn is_white_space(c: char) -> bool {
    let v = c as u32;
    ||| 0x09 <= v <= 0x0d
    ||| v == 0x20
    ||| v == 0x85
    ||| v == 0xa0
    ||| v == 0x1680
    ||| 0x2000 <= v <= 0x200a
    ||| v == 0x2028
    ||| v == 0x2029
    ||| v == 0x202f
    ||| v == 0x205f
    ||| v == 0x3000
}

/// ASCII whitespace as `u8::is_ascii_whitespace` defines it.
pub open spec fn is_ascii_ws_byte(b: u8) -> bool {
    b == 0x20 || b == 0x09 || b == 0x0a || b == 0x0c || b == 0x0d
}

pub open spec fn is_ascii_digit_char(c: char) -> bool {
    '0' <= c <= '9'
}

/// ASCII punctuation as `char::is_ascii_punctuation` defines it.
pub open spec fn is_ascii_punct(c: char) -> bool {
    let v = c as u32;
    ||| 0x21 <= v <= 0x2f
    ||| 0x3a <= v <= 0x40
    ||| 0x5b <= v <= 0x60
    ||| 0x7b <= v <= 0x7e
}

/// ASCII lowercase mapping of one character; other characters are unchanged.
pub open spec fn ascii_lower(c: char) -> char {
    if 'A' <= c <= 'Z' {
        ((c as u32) + 32) as char
    } else {
        c
    }
}

pub open spec fn ascii_lower_seq(s: Seq<char>) -> Seq<char> {
    Seq::new(s.len(), |i: int| ascii_lower(s[i]))
}

/// ASCII lowercase mapping of one byte.
pub open spec fn ascii_lower_byte(b: u8) -> u8 {
    if 0x41 <= b <= 0x5a {
        (b + 32) as u8
    } else {
        b
    }
}

/// Number of bytes that the UTF-8 encoding of `c` occupies.
pub open spec fn utf8_len(c: char) -> nat {
    let v = c as u32;
    if v < 0x80 {
        1
    } else if v < 0x800 {
        2
    } else if v < 0x10000 {
        3
    } else {
        4
    }
}

/// Number of bytes that the UTF-8 encoding of `s` occupies.
pub open spec fn utf8_byte_len(s: Seq<char>) -> nat
    decreases s.len(),
{
    if s.len() == 0 {
        0
    } else {
        utf8_byte_len(s.drop_last()) + utf8_len(s.last())
    }
}

pub proof fn lemma_utf8_byte_len_push(s: Seq<char>, c: char)
    ensures
        utf8_byte_len(s.push(c)) == utf8_byte_len(s) + utf8_len(c),
{
    assert(s.push(c).drop_last() =~= s);
}

pub proof fn lemma_utf8_byte_len_concat(a: Seq<char>, b: Seq<char>)
    ensures
        utf8_byte_len(a + b) == utf8_byte_len(a) + utf8_byte_len(b),
    decreases b.len(),
{
    if b.len() == 0 {
        assert(a + b =~= a);
    } else {
        lemma_utf8_byte_len_concat(a, b.drop_last());
        assert((a + b).drop_last() =~= a + b.drop_last());
    }
}

pub fn char_is_whitespace(c: char) -> (r: bool)
    ensures
        r == is_white_space(c),
{
    let v = c as u32;
    (0x09 <= v && v <= 0x0d) || v == 0x20 || v == 0x85 || v == 0xa0 || v == 0x1680 || (0x2000
        <= v && v <= 0x200a) || v == 0x2028 || v == 0x2029 || v == 0x202f || v == 0x205f || v
        == 0x3000
}

pub fn byte_is_ascii_whitespace(b: u8) -> (r: bool)
    ensures
        r == is_ascii_ws_byte(b),
{
    b == 0x20 || b == 0x09 || b == 0x0a || b == 0x0c || b == 0x0d
}

pub fn char_is_ascii_punctuation(c: char) -> (r: bool)
    ensures
        r == is_ascii_punct(c),
{
    let v = c as u32;
    (0x21 <= v && v <= 0x2f) || (0x3a <= v && v <= 0x40) || (0x5b <= v && v <= 0x60) || (0x7b
        <= v && v <= 0x7e)
}

pub fn char_to_ascii_lowercase(c: char) -> (r: char)
    ensures
        r == ascii_lower(c),
{
    if 'A' <= c && c <= 'Z' {
        let v: u8 = (c as u8) + 32;
        v as char
    } else {
        c
    }
}

pub fn byte_to_ascii_lowercase(b: u8) -> (r: u8)
    ensures
        r == ascii_lower_byte(b),
{
    if 0x41 <= b && b <= 0x5a {
        b + 32
    } else {
        b
    }
}

pub fn char_utf8_len(c: char) -> (r: usize)
    ensures
        r == utf8_len(c),
{
    let v = c as u32;
    if v < 0x80 {
        1
    } else if v < 0x800 {
        2
    } else if v < 0x10000 {
        3
    } else {
        4
    }
}

/// Appends one character to a `String`.
#[verifier::external_body]
pub fn string_push(s: &mut String, c: char)
    ensures
        final(s)@ == old(s)@.push(c),
{
    s.push(c);
}

/// The characters of a string slice, in order.
pub fn str_to_chars(s: &str) -> (r: Vec<char>)
    ensures
        r@ == s@,
{
    let mut out: Vec<char> = Vec::new();
    for c in it: s.chars()
        invariant
            it.seq() == s@,
            out@ == it.seq().take(it.index() as int),
    {
        out.push(c);
    }
    out
}

/// Builds a `String` from characters.
pub fn chars_to_string(chars: &[char]) -> (r: String)
    ensures
        r@ == chars@,
{
    let mut out = String::new();
    let mut i: usize = 0;
    while i < chars.len()
        invariant
            i <= chars.len(),
            out@ == chars@.take(i as int),
        decreases chars.len() - i,
    {
        string_push(&mut out, chars[i]);
        assert(chars@.take(i + 1) =~= chars@.take(i as int).push(chars@[i as int]));
        i += 1;
    }
    assert(chars@.take(chars.len() as int) =~= chars@);
    out
}

/// Whether two string slices hold the same characters.
pub fn str_equal(a: &str, b: &str) -> (r: bool)
    ensures
        r == (a@ == b@),
{
    let x = str_to_chars(a);
    let y = str_to_chars(b);
    chars_equal(x.as_slice(), y.as_slice())
}

pub fn chars_equal(x: &[char], y: &[char]) -> (r: bool)
    ensures
        r == (x@ == y@),
{
    if x.len() != y.len() {
        return false;
    }
    let mut i: usize = 0;
    while i < x.len()
        invariant
            x.len() == y.len(),
            i <= x.len(),
            forall|j: int| 0 <= j < i ==> x@[j] == y@[j],
        decreases x.len() - i,
    {
        if x[i] != y[i] {
            return false;
        }
        i += 1;
    }
    assert(x@ =~= y@);
    true
}

/// ASCII-lowercased copy of a character sequence.
pub fn chars_to_ascii_lowercase(s: &[char]) -> (r: Vec<char>)
    ensures
        r@ == ascii_lower_seq(s@),
{
    let mut out: Vec<char> = Vec::new();
    let mut i: usize = 0;
    while i < s.len()
        invariant
            i <= s.len(),
            out@ == ascii_lower_seq(s@.take(i as int)),
        decreases s.len() - i,
    {
        out.push(char_to_ascii_lowercase(s[i]));
        assert(ascii_lower_seq(s@.take(i + 1)) =~= ascii_lower_seq(s@.take(i as int)).push(
            ascii_lower(s@[i as int]),
        ));
        i += 1;
    }
    assert(s@.take(s.len() as int) =~= s@);
    out
}

} // verus!

verus! {

/// Character classes that the trimming helpers strip.
#[derive(Clone, Copy, Debug, PartialEq, Eq, Structural)]
pub enum TrimClass {
    /// Unicode `White_Space`, as `str::trim` strips.
    Whitespace,
    /// Single and double quotes.
    Quotes,
}

pub open spec fn in_trim_class(class: TrimClass, c: char) -> bool {
    match class {
        TrimClass::Whitespace => is_white_space(c),
        TrimClass::Quotes => c == '\'' || c == '"',
    }
}

/// `s` without its leading characters of `class`.
pub open spec fn trim_start_class(s: Seq<char>, class: TrimClass) -> Seq<char>
    decreases s.len(),
{
    if s.len() > 0 && in_trim_class(class, s[0]) {
        trim_start_class(s.drop_first(), class)
    } else {
        s
    }
}

/// `s` without its trailing characters of `class`.
pub open spec fn trim_end_class(s: Seq<char>, class: TrimClass) -> Seq<char>
    decreases s.len(),
{
    if s.len() > 0 && in_trim_class(class, s.last()) {
        trim_end_class(s.drop_last(), class)
    } else {
        s
    }
}

/// `s` without leading and trailing characters of `class`.
pub open spec fn trim_class(s: Seq<char>, class: TrimClass) -> Seq<char> {
    trim_end_class(trim_start_class(s, class), class)
}

pub fn char_in_trim_class(class: TrimClass, c: char) -> (r: bool)
    ensures
        r == in_trim_class(class, c),
{
    match class {
        TrimClass::Whitespace => char_is_whitespace(c),
        TrimClass::Quotes => c == '\'' || c == '"',
    }
}

proof fn lemma_trim_start_skip(s: Seq<char>, class: TrimClass, i: int)
    requires
        0 <= i < s.len(),
        in_trim_class(class, s[i]),
    ensures
        trim_start_class(s.skip(i), class) == trim_start_class(s.skip(i + 1), class),
{
    assert(s.skip(i).drop_first() =~= s.skip(i + 1));
}

proof fn lemma_trim_end_take(s: Seq<char>, class: TrimClass, j: int)
    requires
        0 < j <= s.len(),
        in_trim_class(class, s[j - 1]),
    ensures
        trim_end_class(s.take(j), class) == trim_end_class(s.take(j - 1), class),
{
    assert(s.take(j).drop_last() =~= s.take(j - 1));
}

/// Removes leading and trailing characters of `class`.
pub fn trim_chars(s: &[char], class: TrimClass) -> (r: Vec<char>)
    ensures
        r@ == trim_class(s@, class),
{
    let mut i: usize = 0;
    assert(s@.skip(0) =~= s@);
    while i < s.len() && char_in_trim_class(class, s[i])
        invariant
            i <= s.len(),
            trim_start_class(s@, class) == trim_start_class(s@.skip(i as int), class),
        decreases s.len() - i,
    {
        proof {
            lemma_trim_start_skip(s@, class, i as int);
        }
        i += 1;
    }
    let ghost rest = s@.skip(i as int);
    assert(trim_start_class(s@, class) == rest) by {
        if rest.len() > 0 {
            assert(rest[0] == s@[i as int]);
        }
    }
    let mut j: usize = s.len();
    assert(rest.take(rest.len() as int) =~= rest);
    while j > i && char_in_trim_class(class, s[j - 1])
        invariant
            i <= j <= s.len(),
            rest == s@.skip(i as int),
            trim_end_class(rest, class) == trim_end_class(rest.take(j - i), class),
        decreases j,
    {
        proof {
            lemma_trim_end_take(rest, class, j - i);
        }
        j -= 1;
    }
    let mut out: Vec<char> = Vec::new();
    let mut k: usize = i;
    while k < j
        invariant
            i <= k <= j <= s.len(),
            out@ == s@.subrange(i as int, k as int),
        decreases j - k,
    {
        out.push(s[k]);
        assert(s@.subrange(i as int, k + 1) =~= s@.subrange(i as int, k as int).push(s@[k as int]));
        k += 1;
    }
    assert(out@ =~= rest.take(j - i));
    assert(trim_end_class(rest.take(j - i), class) == rest.take(j - i)) by {
        if j - i > 0 {
            assert(rest.take(j - i).last() == s@[j - 1]);
        }
    }
    out
}

} // verus!

verus! {

pub proof fn lemma_utf8_byte_len_prefix_le(s: Seq<char>, k: int)
    requires
        0 <= k <= s.len(),
    ensures
        utf8_byte_len(s.take(k)) <= utf8_byte_len(s),
    decreases s.len() - k,
{
    if k < s.len() {
        lemma_utf8_byte_len_prefix_le(s, k + 1);
        assert(s.take(k + 1).drop_last() =~= s.take(k));
    } else {
        assert(s.take(k) =~= s);
    }
}

} // verus!

verus! {

/// A copy of `v` in reverse order.
pub fn reversed_copy<T: Copy>(v: &Vec<T>) -> (r: Vec<T>)
    ensures
        r@ == v@.reverse(),
{
    let mut out: Vec<T> = Vec::new();
    let mut i: usize = v.len();
    while i > 0
        invariant
            i <= v.len(),
            out@.len() == v.len() - i,
            forall|k: int| 0 <= k < out@.len() ==> out@[k] == v@[v.len() - 1 - k],
        decreases i,
    {
        i -= 1;
        out.push(v[i]);
    }
    assert(out@ =~= v@.reverse());
    out
}

} // verus!

verus! {

/// An owned copy of a character slice.
pub fn chars_to_vec(s: &[char]) -> (r: Vec<char>)
    ensures
        r@ == s@,
{
    let mut out: Vec<char> = Vec::new();
    let mut i: usize = 0;
    while i < s.len()
        invariant
            i <= s.len(),
            out@ == s@.take(i as int),
        decreases s.len() - i,
    {
        out.push(s[i]);
        assert(s@.take(i + 1) =~= s@.take(i as int).push(s@[i as int]));
        i += 1;
    }
    assert(s@.take(s.len() as int) =~= s@);
    out
}

} // verus!

verus! {

proof fn lemma_encode_scalar_len(c: char)
    ensures
        vstd::utf8::encode_scalar(c as u32).len() == utf8_len(c),
{
}

/// The UTF-8 encoding of `s` is `utf8_byte_len(s)` bytes long.
pub proof fn lemma_encode_utf8_len(s: Seq<char>)
    ensures
        vstd::utf8::encode_utf8(s).len() == utf8_byte_len(s),
    decreases s.len(),
{
    if s.len() > 0 {
        lemma_encode_utf8_len(s.drop_first());
        lemma_encode_scalar_len(s[0]);
        assert(s =~= seq![s[0]] + s.drop_first());
        lemma_utf8_byte_len_concat(seq![s[0]], s.drop_first());
        assert(seq![s[0]].drop_last() =~= Seq::<char>::empty());
        assert(utf8_byte_len(seq![s[0]]) == utf8_byte_len(Seq::<char>::empty()) + utf8_len(s[0]));
        assert(vstd::utf8::encode_utf8(s) == vstd::utf8::encode_scalar(s[0] as u32)
            + vstd::utf8::encode_utf8(s.drop_first()));
    } else {
        assert(vstd::utf8::encode_utf8(s) == Seq::<u8>::empty());
    }
}

/// Byte length of `s` in UTF-8.
pub fn str_byte_len(s: &str) -> (n: usize)
    ensures
        n == utf8_byte_len(s@),
{
    proof {
        lemma_encode_utf8_len(s@);
    }
    let bytes = s.as_bytes();
    bytes.len()
}

} // verus!

verus! {

/// Total length of all the sequences.
pub open spec fn seqs_total_len(s: Seq<Seq<char>>) -> int
    decreases s.len(),
{
    if s.len() == 0 {
        0
    } else {
        seqs_total_len(s.drop_last()) + s.last().len()
    }
}


pub proof fn lemma_seqs_total_push(s: Seq<Seq<char>>, x: Seq<char>)
    ensures
        seqs_total_len(s.push(x)) == seqs_total_len(s) + x.len(),
{
    assert(s.push(x).drop_last() =~= s);
}


/// `text` split at every `sep` (`str::split(sep)`).
pub open spec fn split_on(text: Seq<char>, sep: char) -> Seq<Seq<char>>
    decreases text.len(),
{
    if text.len() == 0 {
        seq![Seq::<char>::empty()]
    } else {
        let prev = split_on(text.drop_last(), sep);
        let c = text.last();
        if c == sep {
            prev.push(Seq::empty())
        } else {
            prev.update(prev.len() - 1, prev.last().push(c))
        }
    }
}

pub proof fn lemma_split_on_len(text: Seq<char>, sep: char)
    ensures
        split_on(text, sep).len() >= 1,
        seqs_total_len(split_on(text, sep)) + split_on(text, sep).len() - 1 == text.len(),
    decreases text.len(),
{
    if text.len() > 0 {
        lemma_split_on_len(text.drop_last(), sep);
        let prev = split_on(text.drop_last(), sep);
        let next = split_on(text, sep);
        if text.last() == sep {
            lemma_seqs_total_push(prev, Seq::empty());
        } else {
            assert(next =~= prev.drop_last().push(prev.last().push(text.last())));
            assert(prev.drop_last().push(prev.last()) =~= prev);
            lemma_seqs_total_push(prev.drop_last(), prev.last());
            lemma_seqs_total_push(prev.drop_last(), prev.last().push(text.last()));
        }
    } else {
        let e = seq![Seq::<char>::empty()];
        assert(e.drop_last() =~= Seq::<Seq<char>>::empty());
        assert(e.last() == Seq::<char>::empty());
        assert(seqs_total_len(Seq::<Seq<char>>::empty()) == 0);
        assert(seqs_total_len(e) == seqs_total_len(e.drop_last()) + e.last().len());
        assert(split_on(text, sep) == e);
    }
}

pub fn split_chars(text: &[char], sep: char) -> (r: Vec<Vec<char>>)
    ensures
        Seq::new(r@.len(), |i: int| r@[i]@) == split_on(text@, sep),
{
    let mut words: Vec<Vec<char>> = Vec::new();
    words.push(Vec::new());
    let mut i: usize = 0;
    assert(text@.take(0) =~= Seq::<char>::empty());
    assert(Seq::new(words@.len(), |k: int| words@[k]@) =~= seq![Seq::<char>::empty()]);
    while i < text.len()
        invariant
            i <= text.len(),
            Seq::new(words@.len(), |k: int| words@[k]@) == split_on(text@.take(i as int), sep),
            words@.len() >= 1,
        decreases text.len() - i,
    {
        proof {
            lemma_split_on_len(text@.take(i as int), sep);
        }
        assert(text@.take(i + 1).drop_last() =~= text@.take(i as int));
        let c = text[i];
        if c == sep {
            words.push(Vec::new());
        } else {
            let mut last = words.pop().unwrap();
            last.push(c);
            words.push(last);
        }
        assert(Seq::new(words@.len(), |k: int| words@[k]@) =~= split_on(
            text@.take(i + 1),
            sep,
        ));
        i += 1;
    }
    assert(text@.take(text.len() as int) =~= text@);
    words
}

} // verus!

verus! {

/// Decimal digit for `d < 10`.
pub open spec fn digit_char(d: int) -> char {
    (('0' as int) + d) as char
}

/// Decimal digits of `n` without leading zeros (`0` for zero).
pub open spec fn decimal(n: nat) -> Seq<char>
    decreases n,
{
    if n < 10 {
        seq![digit_char(n as int)]
    } else {
        decimal(n / 10).push(digit_char((n % 10) as int))
    }
}

/// The decimal representation of `n`, as `to_string` writes it.
pub fn u64_to_decimal(n: u64) -> (r: String)
    ensures
        r@ == decimal(n as nat),
{
    let mut digits: Vec<char> = Vec::new();
    let mut rest: u64 = n;
    while rest >= 10
        invariant
            decimal(n as nat) == decimal(rest as nat) + reverse_chars(digits@),
        decreases rest,
    {
        let d = rest % 10;
        proof {
            assert(decimal(rest as nat) == decimal((rest / 10) as nat).push(digit_char(d as int)));
            assert(reverse_chars(digits@.push(digit_char(d as int))) =~= seq![digit_char(d as int)]
                + reverse_chars(digits@));
            assert(decimal((rest / 10) as nat).push(digit_char(d as int)) + reverse_chars(digits@)
                =~= decimal((rest / 10) as nat) + (seq![digit_char(d as int)] + reverse_chars(
                digits@,
            )));
        }
        digits.push(digit_char_exec(d as u8));
        rest = rest / 10;
    }
    let mut out = String::new();
    string_push(&mut out, digit_char_exec(rest as u8));
    let mut i: usize = digits.len();
    assert(out@ =~= decimal(rest as nat));
    assert(reverse_chars(digits@).skip(0) =~= reverse_chars(digits@));
    while i > 0
        invariant
            i <= digits@.len(),
            decimal(n as nat) == out@ + reverse_chars(digits@).skip(digits@.len() - i),
        decreases i,
    {
        i -= 1;
        let c = digits[i];
        proof {
            let k = digits@.len() - i - 1;
            assert(reverse_chars(digits@)[k] == c);
            assert(reverse_chars(digits@).skip(k) =~= seq![c] + reverse_chars(digits@).skip(k + 1));
            assert(out@.push(c) + reverse_chars(digits@).skip(k + 1) =~= out@ + (seq![c]
                + reverse_chars(digits@).skip(k + 1)));
        }
        string_push(&mut out, c);
    }
    assert(reverse_chars(digits@).skip(digits@.len() as int) =~= Seq::<char>::empty());
    assert(out@ + Seq::<char>::empty() =~= out@);
    out
}

/// `s` in reverse order.
pub open spec fn reverse_chars(s: Seq<char>) -> Seq<char> {
    Seq::new(s.len(), |i: int| s[s.len() - 1 - i])
}

fn digit_char_exec(d: u8) -> (c: char)
    requires
        d < 10,
    ensures
        c == digit_char(d as int),
{
    (('0' as u8) + d) as char
}

} // verus!

verus! {

/// `str`'s `Debug` formatting of `s`: quoted, with escapes.
pub uninterp spec fn str_debug(s: Seq<char>) -> Seq<char>;

/// `format!("{:?}", ..)` of a string slice, named `str_debug`.
#[verifier::external_body]
pub(crate) fn debug_quoted(s: &str) -> (r: String)
    ensures
        r@ == str_debug(s@),
{
    format!("{s:?}")
}

/// `char`'s `Debug` formatting of `c`: single-quoted, with escapes.
pub uninterp spec fn char_debug(c: char) -> Seq<char>;

/// `format!("{:?}", ..)` of a character, named `char_debug`.
#[verifier::external_body]
pub(crate) fn debug_char(c: char) -> (r: String)
    ensures
        r@ == char_debug(c),
{
    format!("{c:?}")
}

/// Decimal digits of `n`, with a leading `-` when negative.
pub open spec fn int_decimal(n: int) -> Seq<char> {
    if n < 0 {
        seq!['-'] + decimal((-n) as nat)
    } else {
        decimal(n as nat)
    }
}

/// The decimal representation of `n`, as `to_string` writes it.
pub fn i64_to_decimal(n: i64) -> (r: String)
    ensures
        r@ == int_decimal(n as int),
{
    if n >= 0 {
        u64_to_decimal(n as u64)
    } else {
        let magnitude: u64 = if n == i64::MIN {
            9223372036854775808u64
        } else {
            (-n) as u64
        };
        let digits = u64_to_decimal(magnitude);
        let mut out = String::new();
        string_push(&mut out, '-');
        let chars = str_to_chars(digits.as_str());
        let mut i: usize = 0;
        while i < chars.len()
            invariant
                i <= chars@.len(),
                chars@ == decimal(magnitude as nat),
                out@ == seq!['-'] + chars@.take(i as int),
            decreases chars@.len() - i,
        {
            string_push(&mut out, chars[i]);
            assert(out@ =~= seq!['-'] + chars@.take(i + 1));
            i += 1;
        }
        assert(chars@.take(i as int) =~= chars@);
        out
    }
}

/// Appends `s` to `out`.
pub fn push_str(out: &mut String, s: &str)
    ensures
        final(out)@ == old(out)@ + s@,
{
    let chars = str_to_chars(s);
    let ghost start = out@;
    let mut i: usize = 0;
    while i < chars.len()
        invariant
            i <= chars@.len(),
            chars@ == s@,
            out@ == start + s@.take(i as int),
        decreases chars@.len() - i,
    {
        string_push(out, chars[i]);
        assert(out@ =~= start + s@.take(i + 1));
        i += 1;
    }
    assert(s@.take(i as int) =~= s@);
}

} // verus!
