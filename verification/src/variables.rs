//! CSS custom properties: `var()` substitution with fallbacks, cycle
//! detection, and memoised resolution of every property of an element.
use vstd::prelude::*;
use crate::storage::{entries_view, keys_sorted, spec_get, spec_remove, spec_set, Entry};
use crate::text_util::{ascii_lower, debug_quoted, str_debug, string_push, str_to_chars, trim_class, TrimClass};

verus! {

/// Why a `var()` reference could not be resolved.
#[derive(Clone, Debug, PartialEq, Eq)]
pub enum VarError {
    Missing(String),
    Cycle(String),
    Syntax(String),
}

/// The plain contents of a `VarError`.
pub enum VarErrorView {
    Missing(Seq<char>),
    Cycle(Seq<char>),
    Syntax(Seq<char>),
}

pub open spec fn var_error_view(e: VarError) -> VarErrorView {
    match e {
        VarError::Missing(n) => VarErrorView::Missing(n@),
        VarError::Cycle(n) => VarErrorView::Cycle(n@),
        VarError::Syntax(m) => VarErrorView::Syntax(m@),
    }
}

pub open spec fn result_view(r: Result<String, VarError>) -> Result<Seq<char>, VarErrorView> {
    match r {
        Ok(v) => Ok(v@),
        Err(e) => Err(var_error_view(e)),
    }
}

/// The text of a `VarError`.
pub open spec fn var_error_text(e: VarErrorView) -> Seq<char> {
    match e {
        VarErrorView::Missing(n) => "missing custom property "@ + n,
        VarErrorView::Cycle(n) => "custom property cycle through "@ + n,
        VarErrorView::Syntax(m) => m,
    }
}

fn append_str(out: &mut String, s: &str)
    ensures
        final(out)@ == old(out)@ + s@,
{
    let chars = str_to_chars(s);
    append_chars(out, chars.as_slice());
}

fn append_chars(out: &mut String, chars: &[char])
    ensures
        final(out)@ == old(out)@ + chars@,
{
    let ghost start = out@;
    let mut i: usize = 0;
    while i < chars.len()
        invariant
            i <= chars@.len(),
            out@ == start + chars@.take(i as int),
        decreases chars@.len() - i,
    {
        string_push(out, chars[i]);
        assert(out@ =~= start + chars@.take(i + 1));
        i += 1;
    }
    assert(chars@.take(i as int) =~= chars@);
}

impl VarError {
    /// The error as displayed.
    pub fn message(&self) -> (r: String)
        ensures
            r@ == var_error_text(var_error_view(*self)),
    {
        match self {
            VarError::Missing(n) => {
                let mut out = String::from_str("missing custom property ");
                append_str(&mut out, n.as_str());
                out
            },
            VarError::Cycle(n) => {
                let mut out = String::from_str("custom property cycle through ");
                append_str(&mut out, n.as_str());
                out
            },
            VarError::Syntax(m) => {
                let chars = str_to_chars(m.as_str());
                crate::text_util::chars_to_string(chars.as_slice())
            },
        }
    }
}

pub open spec fn is_ascii_alnum(c: char) -> bool {
    ('0' <= c <= '9') || ('a' <= c <= 'z') || ('A' <= c <= 'Z')
}

/// `var(` (ASCII case-insensitively) starts at `i`, not preceded by a name
/// character.
pub open spec fn var_at(s: Seq<char>, i: int) -> bool {
    &&& 0 <= i
    &&& i + 4 <= s.len()
    &&& ascii_lower(s[i]) == 'v'
    &&& ascii_lower(s[i + 1]) == 'a'
    &&& ascii_lower(s[i + 2]) == 'r'
    &&& s[i + 3] == '('
    &&& (i == 0 || !(is_ascii_alnum(s[i - 1]) || s[i - 1] == '-' || s[i - 1] == '_'))
}

/// First `var(` at or after `from`.
pub open spec fn find_var(s: Seq<char>, from: int) -> Option<int>
    decreases s.len() - from,
{
    if from < 0 || from + 4 > s.len() {
        None
    } else if var_at(s, from) {
        Some(from)
    } else {
        find_var(s, from + 1)
    }
}

/// The scan for the `)` closing a `var(`, skipping escaped characters and
/// quoted text.
pub open spec fn paren_scan(s: Seq<char>, i: int, depth: int, quote: Option<char>, escaped: bool) -> Option<int>
    decreases s.len() - i,
{
    if i < 0 || i >= s.len() {
        None
    } else {
        let c = s[i];
        if escaped {
            paren_scan(s, i + 1, depth, quote, false)
        } else if c == '\\' {
            paren_scan(s, i + 1, depth, quote, true)
        } else if quote is Some {
            if c == quote->0 {
                paren_scan(s, i + 1, depth, None, false)
            } else {
                paren_scan(s, i + 1, depth, quote, false)
            }
        } else if c == '\'' || c == '"' {
            paren_scan(s, i + 1, depth, Some(c), false)
        } else if c == '(' {
            paren_scan(s, i + 1, depth + 1, quote, false)
        } else if c == ')' {
            if depth - 1 == 0 {
                Some(i)
            } else {
                paren_scan(s, i + 1, depth - 1, quote, false)
            }
        } else {
            paren_scan(s, i + 1, depth, quote, false)
        }
    }
}

/// The scan for the first comma outside parentheses and quotes.
pub open spec fn comma_scan(s: Seq<char>, i: int, depth: int, quote: Option<char>, escaped: bool) -> Option<int>
    decreases s.len() - i,
{
    if i < 0 || i >= s.len() {
        None
    } else {
        let c = s[i];
        if escaped {
            comma_scan(s, i + 1, depth, quote, false)
        } else if c == '\\' {
            comma_scan(s, i + 1, depth, quote, true)
        } else if quote is Some {
            if c == quote->0 {
                comma_scan(s, i + 1, depth, None, false)
            } else {
                comma_scan(s, i + 1, depth, quote, false)
            }
        } else if c == '\'' || c == '"' {
            comma_scan(s, i + 1, depth, Some(c), false)
        } else if c == '(' {
            comma_scan(s, i + 1, depth + 1, quote, false)
        } else if c == ')' {
            comma_scan(s, i + 1, if depth > 0 { depth - 1 } else { 0 }, quote, false)
        } else if c == ',' && depth == 0 {
            Some(i)
        } else {
            comma_scan(s, i + 1, depth, quote, false)
        }
    }
}

/// The name and the fallback of a `var()` body.
pub open spec fn split_var_arguments(body: Seq<char>) -> (Seq<char>, Option<Seq<char>>) {
    match comma_scan(body, 0, 0, None, false) {
        Some(i) => (body.take(i), Some(body.skip(i + 1))),
        None => (body, None),
    }
}

pub open spec fn is_ascii_ws_char(c: char) -> bool {
    c == ' ' || c == '\t' || c == '\n' || c == '\x0C' || c == '\r'
}

/// `--` followed by at least one character, with no ASCII whitespace.
pub open spec fn valid_custom_name(n: Seq<char>) -> bool {
    &&& n.len() > 2
    &&& n[0] == '-'
    &&& n[1] == '-'
    &&& forall|i: int| 0 <= i < n.len() ==> !is_ascii_ws_char(#[trigger] n[i])
}

pub open spec fn trim_ws(s: Seq<char>) -> Seq<char> {
    trim_class(s, TrimClass::Whitespace)
}

/// The value memoised last for `k`.
pub open spec fn lookup_memo(memo: Seq<Entry>, k: Seq<char>) -> Option<Seq<char>>
    decreases memo.len(),
{
    if memo.len() == 0 {
        None
    } else if memo.last().0 == k {
        Some(memo.last().1)
    } else {
        lookup_memo(memo.drop_last(), k)
    }
}

/// `s` without any `x`.
pub open spec fn remove_all(s: Seq<Seq<char>>, x: Seq<char>) -> Seq<Seq<char>>
    decreases s.len(),
{
    if s.len() == 0 {
        Seq::empty()
    } else {
        let r = remove_all(s.drop_last(), x);
        if s.last() == x {
            r
        } else {
            r.push(s.last())
        }
    }
}

pub type Outcome = (Result<Seq<char>, VarErrorView>, Seq<Entry>, Seq<Seq<char>>);

/// Resolution of the custom property `name`, given the raw values, the
/// values resolved so far, and the names being resolved; in `direct` mode
/// only the resolved values are consulted. `None` when `fuel` runs out.
pub open spec fn spec_resolve_name(
    name: Seq<char>,
    raw: Seq<Entry>,
    memo: Seq<Entry>,
    stack: Seq<Seq<char>>,
    direct: bool,
    fuel: nat,
) -> Option<Outcome>
    decreases fuel,
{
    if fuel == 0 {
        None
    } else {
        match lookup_memo(memo, name) {
            Some(v) => Some((Ok(v), memo, stack)),
            None => if direct {
                Some((Err(VarErrorView::Missing(name)), memo, stack))
            } else if stack.contains(name) {
                Some((Err(VarErrorView::Cycle(name)), memo, stack))
            } else {
                let stack1 = stack.push(name);
                match spec_get(raw, name) {
                    None => Some((Err(VarErrorView::Missing(name)), memo, stack1)),
                    Some(source) => match spec_resolve_text(
                        source,
                        raw,
                        memo,
                        stack1,
                        direct,
                        (fuel - 1) as nat,
                    ) {
                        None => None,
                        Some((res, memo2, stack2)) => {
                            let stack3 = remove_all(stack2, name);
                            match res {
                                Err(e) => Some((Err(e), memo2, stack3)),
                                Ok(v) => Some((Ok(v), memo2.push((name, v)), stack3)),
                            }
                        },
                    },
                }
            },
        }
    }
}

/// `source` with every `var()` replaced, trimmed.
pub open spec fn spec_resolve_text(
    source: Seq<char>,
    raw: Seq<Entry>,
    memo: Seq<Entry>,
    stack: Seq<Seq<char>>,
    direct: bool,
    fuel: nat,
) -> Option<Outcome>
    decreases fuel,
{
    if fuel == 0 {
        None
    } else {
        match spec_resolve_from(
            source,
            raw,
            memo,
            stack,
            direct,
            0,
            Seq::empty(),
            (fuel - 1) as nat,
        ) {
            None => None,
            Some((Ok(out), m, s)) => Some((Ok(trim_ws(out)), m, s)),
            Some((Err(e), m, s)) => Some((Err(e), m, s)),
        }
    }
}

pub open spec fn invalid_name_message(name: Seq<char>) -> Seq<char> {
    "invalid var() custom property name "@ + str_debug(name)
}

/// The substitution of `source` from `cursor` on, after the output `out`.
pub open spec fn spec_resolve_from(
    source: Seq<char>,
    raw: Seq<Entry>,
    memo: Seq<Entry>,
    stack: Seq<Seq<char>>,
    direct: bool,
    cursor: int,
    out: Seq<char>,
    fuel: nat,
) -> Option<Outcome>
    decreases fuel,
{
    if fuel == 0 {
        None
    } else {
        match find_var(source, cursor) {
            None => Some((Ok(out + source.subrange(cursor, source.len() as int)), memo, stack)),
            Some(start) => {
                let out1 = out + source.subrange(cursor, start);
                match paren_scan(source, start + 4, 1, None, false) {
                    None => Some(
                        (Err(VarErrorView::Syntax("unterminated var() function"@)), memo, stack),
                    ),
                    Some(end) => {
                        let body = source.subrange(start + 4, end);
                        let (name0, fallback) = split_var_arguments(body);
                        let name = trim_ws(name0);
                        if !valid_custom_name(name) {
                            Some(
                                (
                                    Err(VarErrorView::Syntax(invalid_name_message(name))),
                                    memo,
                                    stack,
                                ),
                            )
                        } else {
                            match spec_resolve_name(name, raw, memo, stack, direct, (fuel - 1) as nat) {
                                None => None,
                                Some((Ok(v), m1, s1)) => spec_resolve_from(
                                    source,
                                    raw,
                                    m1,
                                    s1,
                                    direct,
                                    end + 1,
                                    out1 + v,
                                    (fuel - 1) as nat,
                                ),
                                Some((Err(e), m1, s1)) => match fallback {
                                    None => Some((Err(e), m1, s1)),
                                    Some(fb) => match spec_resolve_text(
                                        trim_ws(fb),
                                        raw,
                                        m1,
                                        s1,
                                        direct,
                                        (fuel - 1) as nat,
                                    ) {
                                        None => None,
                                        Some((Err(e2), m2, s2)) => Some((Err(e2), m2, s2)),
                                        Some((Ok(v2), m2, s2)) => spec_resolve_from(
                                            source,
                                            raw,
                                            m2,
                                            s2,
                                            direct,
                                            end + 1,
                                            out1 + v2,
                                            (fuel - 1) as nat,
                                        ),
                                    },
                                },
                            }
                        }
                    },
                }
            },
        }
    }
}

} // verus!

verus! {

/// Number of raw names not among `stack`.
pub open spec fn count_free(raw: Seq<Entry>, stack: Seq<Seq<char>>) -> int
    decreases raw.len(),
{
    if raw.len() == 0 {
        0
    } else {
        count_free(raw.drop_last(), stack) + (if stack.contains(raw.last().0) {
            0int
        } else {
            1int
        })
    }
}

proof fn lemma_count_free_mono(raw: Seq<Entry>, s1: Seq<Seq<char>>, s2: Seq<Seq<char>>)
    requires
        forall|x: Seq<char>| s1.contains(x) ==> s2.contains(x),
    ensures
        0 <= count_free(raw, s2) <= count_free(raw, s1),
    decreases raw.len(),
{
    if raw.len() > 0 {
        lemma_count_free_mono(raw.drop_last(), s1, s2);
    }
}

proof fn lemma_count_free_strict(raw: Seq<Entry>, s: Seq<Seq<char>>, k: Seq<char>, i: int)
    requires
        0 <= i < raw.len(),
        raw[i].0 == k,
        !s.contains(k),
    ensures
        count_free(raw, s.push(k)) < count_free(raw, s),
    decreases raw.len(),
{
    assert forall|x: Seq<char>| s.contains(x) implies s.push(k).contains(x) by {
        let j = choose|j: int| 0 <= j < s.len() && s[j] == x;
        assert(s.push(k)[j] == x);
    }
    assert(s.push(k).contains(k)) by {
        assert(s.push(k)[s.len() as int] == k);
    }
    if i == raw.len() - 1 {
        lemma_count_free_mono(raw.drop_last(), s, s.push(k));
    } else {
        assert(raw.drop_last()[i] == raw[i]);
        lemma_count_free_strict(raw.drop_last(), s, k, i);
        if !s.contains(raw.last().0) && s.push(k).contains(raw.last().0) {
            assert(raw.last().0 == k);
        }
    }
}

proof fn lemma_remove_all_keeps(s: Seq<Seq<char>>, x: Seq<char>, y: Seq<char>)
    requires
        y != x,
        s.contains(y),
    ensures
        remove_all(s, x).contains(y),
    decreases s.len(),
{
    let r = remove_all(s.drop_last(), x);
    if s.last() == y {
        assert(r.push(s.last())[r.len() as int] == y);
    } else {
        let j = choose|j: int| 0 <= j < s.len() && s[j] == y;
        assert(s.drop_last()[j] == y);
        lemma_remove_all_keeps(s.drop_last(), x, y);
        if s.last() != x {
            let m = choose|m: int| 0 <= m < r.len() && r[m] == y;
            assert(r.push(s.last())[m] == y);
        }
    }
}

proof fn lemma_trim_ws_len(s: Seq<char>)
    ensures
        trim_ws(s).len() <= s.len(),
{
    lemma_trim_start_len(s);
    lemma_trim_end_len(crate::text_util::trim_start_class(s, TrimClass::Whitespace));
}

proof fn lemma_trim_start_len(s: Seq<char>)
    ensures
        crate::text_util::trim_start_class(s, TrimClass::Whitespace).len() <= s.len(),
    decreases s.len(),
{
    if s.len() > 0 {
        lemma_trim_start_len(s.drop_first());
    }
}

proof fn lemma_trim_end_len(s: Seq<char>)
    ensures
        crate::text_util::trim_end_class(s, TrimClass::Whitespace).len() <= s.len(),
    decreases s.len(),
{
    if s.len() > 0 {
        lemma_trim_end_len(s.drop_last());
    }
}

proof fn lemma_mono_name(
    name: Seq<char>,
    raw: Seq<Entry>,
    memo: Seq<Entry>,
    stack: Seq<Seq<char>>,
    direct: bool,
    f: nat,
    g: nat,
)
    requires
        spec_resolve_name(name, raw, memo, stack, direct, f) is Some,
        f <= g,
    ensures
        spec_resolve_name(name, raw, memo, stack, direct, g) == spec_resolve_name(
            name,
            raw,
            memo,
            stack,
            direct,
            f,
        ),
    decreases f,
{
    if lookup_memo(memo, name) is None && !direct && !stack.contains(name) {
        match spec_get(raw, name) {
            Some(source) => {
                lemma_mono_text(
                    source,
                    raw,
                    memo,
                    stack.push(name),
                    direct,
                    (f - 1) as nat,
                    (g - 1) as nat,
                );
            },
            None => {},
        }
    }
}

proof fn lemma_mono_text(
    source: Seq<char>,
    raw: Seq<Entry>,
    memo: Seq<Entry>,
    stack: Seq<Seq<char>>,
    direct: bool,
    f: nat,
    g: nat,
)
    requires
        spec_resolve_text(source, raw, memo, stack, direct, f) is Some,
        f <= g,
    ensures
        spec_resolve_text(source, raw, memo, stack, direct, g) == spec_resolve_text(
            source,
            raw,
            memo,
            stack,
            direct,
            f,
        ),
    decreases f,
{
    lemma_mono_from(
        source,
        raw,
        memo,
        stack,
        direct,
        0,
        Seq::empty(),
        (f - 1) as nat,
        (g - 1) as nat,
    );
}

proof fn lemma_mono_from(
    source: Seq<char>,
    raw: Seq<Entry>,
    memo: Seq<Entry>,
    stack: Seq<Seq<char>>,
    direct: bool,
    cursor: int,
    out: Seq<char>,
    f: nat,
    g: nat,
)
    requires
        spec_resolve_from(source, raw, memo, stack, direct, cursor, out, f) is Some,
        f <= g,
    ensures
        spec_resolve_from(source, raw, memo, stack, direct, cursor, out, g) == spec_resolve_from(
            source,
            raw,
            memo,
            stack,
            direct,
            cursor,
            out,
            f,
        ),
    decreases f,
{
    match find_var(source, cursor) {
        None => {},
        Some(start) => {
            let out1 = out + source.subrange(cursor, start);
            match paren_scan(source, start + 4, 1, None, false) {
                None => {},
                Some(end) => {
                    let body = source.subrange(start + 4, end);
                    let (name0, fallback) = split_var_arguments(body);
                    let name = trim_ws(name0);
                    if valid_custom_name(name) {
                        let f1 = (f - 1) as nat;
                        let g1 = (g - 1) as nat;
                        lemma_mono_name(name, raw, memo, stack, direct, f1, g1);
                        match spec_resolve_name(name, raw, memo, stack, direct, f1) {
                            None => {},
                            Some((Ok(v), m1, s1)) => {
                                lemma_mono_from(source, raw, m1, s1, direct, end + 1, out1 + v, f1, g1);
                            },
                            Some((Err(e), m1, s1)) => match fallback {
                                None => {},
                                Some(fb) => {
                                    lemma_mono_text(trim_ws(fb), raw, m1, s1, direct, f1, g1);
                                    match spec_resolve_text(trim_ws(fb), raw, m1, s1, direct, f1) {
                                        Some((Ok(v2), m2, s2)) => {
                                            lemma_mono_from(
                                                source,
                                                raw,
                                                m2,
                                                s2,
                                                direct,
                                                end + 1,
                                                out1 + v2,
                                                f1,
                                                g1,
                                            );
                                        },
                                        _ => {},
                                    }
                                },
                            },
                        }
                    }
                },
            }
        },
    }
}

} // verus!

verus! {

fn is_name_char(c: char) -> (r: bool)
    ensures
        r == (is_ascii_alnum(c) || c == '-' || c == '_'),
{
    ('0' <= c && c <= '9') || ('a' <= c && c <= 'z') || ('A' <= c && c <= 'Z') || c == '-' || c
        == '_'
}

fn lower(c: char) -> (r: char)
    ensures
        r == ascii_lower(c),
{
    crate::text_util::char_to_ascii_lowercase(c)
}

/// First `var(` at or after `from`.
fn find_var_from(s: &[char], from: usize) -> (r: Option<usize>)
    ensures
        match r {
            Some(i) => find_var(s@, from as int) == Some(i as int) && from <= i && i + 4 <= s@.len(),
            None => find_var(s@, from as int) is None,
        },
{
    let mut i = from;
    while i < s.len() && s.len() - i >= 4
        invariant
            from <= i,
            find_var(s@, from as int) == find_var(s@, i as int),
        decreases s@.len() - i,
    {
        if lower(s[i]) == 'v' && lower(s[i + 1]) == 'a' && lower(s[i + 2]) == 'r' && s[i + 3]
            == '(' && (i == 0 || !is_name_char(s[i - 1])) {
            return Some(i);
        }
        i += 1;
    }
    None
}

/// Index of the `)` closing a `var(` whose body starts at `start`.
fn matching_paren(s: &[char], start: usize) -> (r: Option<usize>)
    ensures
        match r {
            Some(i) => paren_scan(s@, start as int, 1, None, false) == Some(i as int) && start <= i
                < s@.len(),
            None => paren_scan(s@, start as int, 1, None, false) is None,
        },
{
    let mut depth: u128 = 1;
    let mut quote: Option<char> = None;
    let mut escaped = false;
    let mut i = start;
    while i < s.len()
        invariant
            start <= i,
            1 <= depth <= i - start + 1,
            paren_scan(s@, start as int, 1, None, false) == paren_scan(
                s@,
                i as int,
                depth as int,
                quote,
                escaped,
            ),
        decreases s@.len() - i,
    {
        let c = s[i];
        if escaped {
            escaped = false;
        } else if c == '\\' {
            escaped = true;
        } else if quote.is_some() {
            if c == quote.unwrap() {
                quote = None;
            }
        } else if c == '\'' || c == '"' {
            quote = Some(c);
        } else if c == '(' {
            depth = depth + 1;
        } else if c == ')' {
            if depth == 1 {
                return Some(i);
            }
            depth = depth - 1;
        }
        i += 1;
    }
    None
}

/// Index of the first comma outside parentheses and quotes.
fn top_level_comma(s: &[char]) -> (r: Option<usize>)
    ensures
        match r {
            Some(i) => comma_scan(s@, 0, 0, None, false) == Some(i as int) && i < s@.len(),
            None => comma_scan(s@, 0, 0, None, false) is None,
        },
{
    let mut depth: u64 = 0;
    let mut quote: Option<char> = None;
    let mut escaped = false;
    let mut i: usize = 0;
    while i < s.len()
        invariant
            depth <= i,
            comma_scan(s@, 0, 0, None, false) == comma_scan(s@, i as int, depth as int, quote, escaped),
        decreases s@.len() - i,
    {
        let c = s[i];
        if escaped {
            escaped = false;
        } else if c == '\\' {
            escaped = true;
        } else if quote.is_some() {
            if c == quote.unwrap() {
                quote = None;
            }
        } else if c == '\'' || c == '"' {
            quote = Some(c);
        } else if c == '(' {
            depth = depth + 1;
        } else if c == ')' {
            if depth > 0 {
                depth = depth - 1;
            }
        } else if c == ',' && depth == 0 {
            return Some(i);
        }
        i += 1;
    }
    None
}

/// Whether `n` is `--` followed by at least one character, without ASCII
/// whitespace.
fn is_valid_custom_name(n: &[char]) -> (r: bool)
    ensures
        r == valid_custom_name(n@),
{
    if n.len() <= 2 || n[0] != '-' || n[1] != '-' {
        return false;
    }
    let mut i: usize = 0;
    while i < n.len()
        invariant
            i <= n@.len(),
            forall|k: int| 0 <= k < i ==> !is_ascii_ws_char(#[trigger] n@[k]),
        decreases n@.len() - i,
    {
        let c = n[i];
        if c == ' ' || c == '\t' || c == '\n' || c == '\x0C' || c == '\r' {
            assert(is_ascii_ws_char(n@[i as int]));
            return false;
        }
        i += 1;
    }
    true
}

pub open spec fn stack_view(v: Seq<String>) -> Seq<Seq<char>> {
    Seq::new(v.len(), |i: int| v[i]@)
}

fn memo_lookup(memo: &Vec<(String, String)>, name: &str) -> (r: Option<String>)
    ensures
        match r {
            Some(v) => lookup_memo(entries_view(memo@), name@) == Some(v@),
            None => lookup_memo(entries_view(memo@), name@) is None,
        },
{
    let ghost e = entries_view(memo@);
    let mut i = memo.len();
    assert(e.take(i as int) =~= e);
    while i > 0
        invariant
            e == entries_view(memo@),
            i <= e.len(),
            lookup_memo(e, name@) == lookup_memo(e.take(i as int), name@),
        decreases i,
    {
        assert(e.take(i as int).drop_last() =~= e.take(i - 1));
        if crate::text_util::str_equal(memo[i - 1].0.as_str(), name) {
            return Some(memo[i - 1].1.clone());
        }
        i -= 1;
    }
    None
}

fn stack_contains(stack: &Vec<String>, name: &str) -> (r: bool)
    ensures
        r == stack_view(stack@).contains(name@),
{
    let ghost sv = stack_view(stack@);
    let mut i: usize = 0;
    while i < stack.len()
        invariant
            sv == stack_view(stack@),
            i <= sv.len(),
            forall|k: int| 0 <= k < i ==> sv[k] != name@,
        decreases sv.len() - i,
    {
        if crate::text_util::str_equal(stack[i].as_str(), name) {
            assert(sv[i as int] == name@);
            return true;
        }
        i += 1;
    }
    false
}

fn stack_without(stack: Vec<String>, name: &str) -> (r: Vec<String>)
    ensures
        stack_view(r@) == remove_all(stack_view(stack@), name@),
{
    let ghost sv = stack_view(stack@);
    let mut out: Vec<String> = Vec::new();
    let mut i: usize = 0;
    assert(sv.take(0) =~= Seq::<Seq<char>>::empty());
    while i < stack.len()
        invariant
            sv == stack_view(stack@),
            i <= sv.len(),
            stack_view(out@) == remove_all(sv.take(i as int), name@),
        decreases sv.len() - i,
    {
        assert(sv.take(i + 1).drop_last() =~= sv.take(i as int));
        if !crate::text_util::str_equal(stack[i].as_str(), name) {
            let ghost before = stack_view(out@);
            out.push(stack[i].clone());
            assert(stack_view(out@) =~= before.push(sv[i as int]));
        }
        i += 1;
    }
    assert(sv.take(i as int) =~= sv);
    out
}

proof fn lemma_push_keeps(s: Seq<Seq<char>>, k: Seq<char>)
    ensures
        forall|x: Seq<char>| s.contains(x) ==> s.push(k).contains(x),
        s.push(k).contains(k),
{
    assert forall|x: Seq<char>| s.contains(x) implies s.push(k).contains(x) by {
        let j = choose|j: int| 0 <= j < s.len() && s[j] == x;
        assert(s.push(k)[j] == x);
    }
    assert(s.push(k)[s.len() as int] == k);
}

proof fn lemma_spec_get_key(raw: Seq<Entry>, k: Seq<char>)
    requires
        spec_get(raw, k) is Some,
    ensures
        exists|i: int| 0 <= i < raw.len() && raw[i].0 == k,
{
    let p = crate::storage::lower_bound(raw, k);
    lemma_lower_bound_nonneg(raw, k);
    assert(0 <= p < raw.len() && raw[p].0 == k);
}

proof fn lemma_lower_bound_nonneg(raw: Seq<Entry>, k: Seq<char>)
    ensures
        crate::storage::lower_bound(raw, k) >= 0,
    decreases raw.len(),
{
    if raw.len() > 0 {
        lemma_lower_bound_nonneg(raw.drop_last(), k);
    }
}

} // verus!

verus! {

pub type ExecOutcome = (Result<String, VarError>, Vec<(String, String)>, Vec<String>);

pub open spec fn outcome_view(r: ExecOutcome) -> Outcome {
    (result_view(r.0), entries_view(r.1@), stack_view(r.2@))
}

/// The names being resolved only grow.
pub open spec fn stack_grows(before: Seq<Seq<char>>, after: Seq<Seq<char>>) -> bool {
    forall|x: Seq<char>| before.contains(x) ==> after.contains(x)
}

/// Resolves the custom property `name`.
fn resolve_name(
    name: &str,
    raw: &Vec<(String, String)>,
    memo: Vec<(String, String)>,
    stack: Vec<String>,
    direct: bool,
) -> (r: ExecOutcome)
    requires
        keys_sorted(entries_view(raw@)),
    ensures
        exists|f: nat|
            #[trigger] spec_resolve_name(
                name@,
                entries_view(raw@),
                entries_view(memo@),
                stack_view(stack@),
                direct,
                f,
            ) == Some(outcome_view(r)),
        stack_grows(stack_view(stack@), stack_view(r.2@)),
    decreases count_free(entries_view(raw@), stack_view(stack@)), 0int, 0int, 0int,
{
    let ghost rv = entries_view(raw@);
    let ghost mv = entries_view(memo@);
    let ghost sv = stack_view(stack@);
    match memo_lookup(&memo, name) {
        Some(v) => {
            let r = (Ok(v), memo, stack);
            assert(spec_resolve_name(name@, rv, mv, sv, direct, 1) == Some(outcome_view(r)));
            return r;
        },
        None => {},
    }
    let name_chars = str_to_chars(name);
    let name_string = crate::text_util::chars_to_string(name_chars.as_slice());
    if direct {
        let r = (Err(VarError::Missing(name_string)), memo, stack);
        assert(spec_resolve_name(name@, rv, mv, sv, direct, 1) == Some(outcome_view(r)));
        return r;
    }
    if stack_contains(&stack, name) {
        let r = (Err(VarError::Cycle(name_string)), memo, stack);
        assert(spec_resolve_name(name@, rv, mv, sv, direct, 1) == Some(outcome_view(r)));
        return r;
    }
    let mut stack1 = stack;
    stack1.push(name_string.clone());
    assert(stack_view(stack1@) =~= sv.push(name@));
    proof {
        lemma_push_keeps(sv, name@);
    }
    match crate::storage::sorted_get(raw, name) {
        None => {
            let r = (Err(VarError::Missing(name_string)), memo, stack1);
            assert(spec_resolve_name(name@, rv, mv, sv, direct, 1) == Some(outcome_view(r)));
            r
        },
        Some(source) => {
            proof {
                lemma_spec_get_key(rv, name@);
                let i = choose|i: int| 0 <= i < rv.len() && rv[i].0 == name@;
                lemma_count_free_strict(rv, sv, name@, i);
                lemma_count_free_mono(rv, sv.push(name@), sv.push(name@));
            }
            let chars = str_to_chars(source.as_str());
            let (res, memo2, stack2) = resolve_text(chars.as_slice(), raw, memo, stack1, direct);
            let ghost inner = (result_view(res), entries_view(memo2@), stack_view(stack2@));
            let ghost f1 = choose|f: nat|
                #[trigger] spec_resolve_text(source@, rv, mv, sv.push(name@), direct, f) == Some(inner);
            let stack3 = stack_without(stack2, name);
            proof {
                assert forall|x: Seq<char>| sv.contains(x) implies stack_view(stack3@).contains(x) by {
                    assert(sv.push(name@).contains(x));
                    if x == name@ {
                        assert(sv.contains(name@));
                    }
                    lemma_remove_all_keeps(stack_view(stack2@), name@, x);
                }
            }
            match res {
                Err(e) => {
                    let r = (Err(e), memo2, stack3);
                    assert(spec_resolve_name(name@, rv, mv, sv, direct, f1 + 1) == Some(
                        outcome_view(r),
                    ));
                    r
                },
                Ok(v) => {
                    let mut memo3 = memo2;
                    let ghost m2 = entries_view(memo3@);
                    memo3.push((name_string, v.clone()));
                    assert(entries_view(memo3@) =~= m2.push((name@, v@)));
                    let r = (Ok(v), memo3, stack3);
                    assert(spec_resolve_name(name@, rv, mv, sv, direct, f1 + 1) == Some(
                        outcome_view(r),
                    ));
                    r
                },
            }
        },
    }
}

/// `source` with every `var()` replaced, trimmed.
fn resolve_text(
    source: &[char],
    raw: &Vec<(String, String)>,
    memo: Vec<(String, String)>,
    stack: Vec<String>,
    direct: bool,
) -> (r: ExecOutcome)
    requires
        keys_sorted(entries_view(raw@)),
    ensures
        exists|f: nat|
            #[trigger] spec_resolve_text(
                source@,
                entries_view(raw@),
                entries_view(memo@),
                stack_view(stack@),
                direct,
                f,
            ) == Some(outcome_view(r)),
        stack_grows(stack_view(stack@), stack_view(r.2@)),
    decreases count_free(entries_view(raw@), stack_view(stack@)), 1int, source@.len(), source@.len()
        + 1,
{
    let ghost rv = entries_view(raw@);
    let ghost mv = entries_view(memo@);
    let ghost sv = stack_view(stack@);
    proof {
        lemma_count_free_mono(rv, sv, sv);
    }
    let (res, m, s) = resolve_from(source, raw, memo, stack, direct, 0, String::new());
    let ghost inner = (result_view(res), entries_view(m@), stack_view(s@));
    let ghost f1 = choose|f: nat|
        #[trigger] spec_resolve_from(source@, rv, mv, sv, direct, 0, Seq::<char>::empty(), f) == Some(inner);
    match res {
        Ok(out) => {
            let chars = str_to_chars(out.as_str());
            let trimmed = crate::text_util::trim_chars(chars.as_slice(), TrimClass::Whitespace);
            let r = (Ok(crate::text_util::chars_to_string(trimmed.as_slice())), m, s);
            assert(spec_resolve_text(source@, rv, mv, sv, direct, f1 + 1) == Some(outcome_view(r)));
            r
        },
        Err(e) => {
            let r = (Err(e), m, s);
            assert(spec_resolve_text(source@, rv, mv, sv, direct, f1 + 1) == Some(outcome_view(r)));
            r
        },
    }
}

/// The substitution of `source` from `cursor` on, after the output `out`.
#[verifier::rlimit(60)]
#[verifier::spinoff_prover]
fn resolve_from(
    source: &[char],
    raw: &Vec<(String, String)>,
    memo: Vec<(String, String)>,
    stack: Vec<String>,
    direct: bool,
    cursor: usize,
    out: String,
) -> (r: ExecOutcome)
    requires
        keys_sorted(entries_view(raw@)),
        cursor <= source@.len(),
    ensures
        exists|f: nat|
            #[trigger] spec_resolve_from(
                source@,
                entries_view(raw@),
                entries_view(memo@),
                stack_view(stack@),
                direct,
                cursor as int,
                out@,
                f,
            ) == Some(outcome_view(r)),
        stack_grows(stack_view(stack@), stack_view(r.2@)),
    decreases count_free(entries_view(raw@), stack_view(stack@)), 1int, source@.len(), source@.len()
        - cursor,
{
    let ghost rv = entries_view(raw@);
    let ghost mv = entries_view(memo@);
    let ghost sv = stack_view(stack@);
    let ghost c = cursor as int;
    proof {
        lemma_count_free_mono(rv, sv, sv);
    }
    let n = source.len();
    match find_var_from(source, cursor) {
        None => {
            let rest = crate::encoding::slice_to_vec(source, cursor, n);
            let mut out = out;
            let ghost before = out@;
            append_chars(&mut out, rest.as_slice());
            let r = (Ok(out), memo, stack);
            assert(spec_resolve_from(source@, rv, mv, sv, direct, c, before, 1) == Some(
                outcome_view(r),
            ));
            r
        },
        Some(start) => {
            let ghost out0 = out@;
            let piece = crate::encoding::slice_to_vec(source, cursor, start);
            let mut out1 = out;
            append_chars(&mut out1, piece.as_slice());
            let ghost o1 = out1@;
            match matching_paren(source, start + 4) {
                None => {
                    let r = (
                        Err(VarError::Syntax(String::from_str("unterminated var() function"))),
                        memo,
                        stack,
                    );
                    assert(spec_resolve_from(source@, rv, mv, sv, direct, c, out0, 1) == Some(
                        outcome_view(r),
                    ));
                    r
                },
                Some(end) => {
                    let body = crate::encoding::slice_to_vec(source, start + 4, end);
                    let (name0, fallback) = match top_level_comma(body.as_slice()) {
                        Some(i) => {
                            let bn = body.len();
                            (
                                crate::encoding::slice_to_vec(body.as_slice(), 0, i),
                                Some(crate::encoding::slice_to_vec(body.as_slice(), i + 1, bn)),
                            )
                        },
                        None => (body.clone(), None),
                    };
                    proof {
                        match comma_scan(body@, 0, 0, None, false) {
                            Some(i) => {
                                assert(name0@ =~= body@.take(i));
                                assert(fallback->0@ =~= body@.skip(i + 1));
                            },
                            None => {
                                assert(name0@ =~= body@);
                            },
                        }
                    }
                    let name = crate::text_util::trim_chars(name0.as_slice(), TrimClass::Whitespace);
                    if !is_valid_custom_name(name.as_slice()) {
                        let name_string = crate::text_util::chars_to_string(name.as_slice());
                        let mut message = String::from_str("invalid var() custom property name ");
                        let quoted = debug_quoted(name_string.as_str());
                        append_str(&mut message, quoted.as_str());
                        let r = (Err(VarError::Syntax(message)), memo, stack);
                        assert(spec_resolve_from(source@, rv, mv, sv, direct, c, out0, 1) == Some(
                            outcome_view(r),
                        ));
                        return r;
                    }
                    let name_string = crate::text_util::chars_to_string(name.as_slice());
                    let (r1, m1, s1) = resolve_name(name_string.as_str(), raw, memo, stack, direct);
                    let ghost o1v = (result_view(r1), entries_view(m1@), stack_view(s1@));
                    let ghost f1 = choose|f: nat|
                        #[trigger] spec_resolve_name(name@, rv, mv, sv, direct, f) == Some(o1v);
                    proof {
                        lemma_count_free_mono(rv, sv, stack_view(s1@));
                    }
                    match r1 {
                        Ok(v) => {
                            let ghost vv = v@;
                            let mut out2 = out1;
                            append_str(&mut out2, v.as_str());
                            let r = resolve_from(source, raw, m1, s1, direct, end + 1, out2);
                            proof {
                                let f2 = choose|f: nat|
                                    #[trigger] spec_resolve_from(
                                        source@,
                                        rv,
                                        entries_view(m1@),
                                        stack_view(s1@),
                                        direct,
                                        end + 1,
                                        o1 + vv,
                                        f,
                                    ) == Some(outcome_view(r));
                                let g = if f1 >= f2 {
                                    f1
                                } else {
                                    f2
                                };
                                lemma_mono_name(name@, rv, mv, sv, direct, f1, g);
                                lemma_mono_from(
                                    source@,
                                    rv,
                                    entries_view(m1@),
                                    stack_view(s1@),
                                    direct,
                                    end + 1,
                                    o1 + vv,
                                    f2,
                                    g,
                                );
                                assert(spec_resolve_from(source@, rv, mv, sv, direct, c, out0, g + 1)
                                    == Some(outcome_view(r)));
                            }
                            r
                        },
                        Err(e) => match fallback {
                            None => {
                                let r = (Err(e), m1, s1);
                                assert(spec_resolve_from(source@, rv, mv, sv, direct, c, out0, f1 + 1)
                                    == Some(outcome_view(r)));
                                r
                            },
                            Some(fb) => {
                                let t = crate::text_util::trim_chars(fb.as_slice(), TrimClass::Whitespace);
                                proof {
                                    lemma_trim_ws_len(fb@);
                                }
                                let (r2, m2, s2) = resolve_text(t.as_slice(), raw, m1, s1, direct);
                                let ghost o2v = (result_view(r2), entries_view(m2@), stack_view(s2@));
                                let ghost f2 = choose|f: nat|
                                    #[trigger] spec_resolve_text(
                                        t@,
                                        rv,
                                        entries_view(m1@),
                                        stack_view(s1@),
                                        direct,
                                        f,
                                    ) == Some(o2v);
                                proof {
                                    lemma_count_free_mono(rv, stack_view(s1@), stack_view(s2@));
                                }
                                match r2 {
                                    Err(e2) => {
                                        let r = (Err(e2), m2, s2);
                                        proof {
                                            let g = if f1 >= f2 {
                                                f1
                                            } else {
                                                f2
                                            };
                                            lemma_mono_name(name@, rv, mv, sv, direct, f1, g);
                                            lemma_mono_text(
                                                t@,
                                                rv,
                                                entries_view(m1@),
                                                stack_view(s1@),
                                                direct,
                                                f2,
                                                g,
                                            );
                                            assert(spec_resolve_from(
                                                source@,
                                                rv,
                                                mv,
                                                sv,
                                                direct,
                                                c,
                                                out0,
                                                g + 1,
                                            ) == Some(outcome_view(r)));
                                        }
                                        r
                                    },
                                    Ok(v2) => {
                                        let ghost v2v = v2@;
                                        let mut out2 = out1;
                                        append_str(&mut out2, v2.as_str());
                                        let r = resolve_from(source, raw, m2, s2, direct, end + 1, out2);
                                        proof {
                                            let f3 = choose|f: nat|
                                                #[trigger] spec_resolve_from(
                                                    source@,
                                                    rv,
                                                    entries_view(m2@),
                                                    stack_view(s2@),
                                                    direct,
                                                    end + 1,
                                                    o1 + v2v,
                                                    f,
                                                ) == Some(outcome_view(r));
                                            let g0 = if f1 >= f2 {
                                                f1
                                            } else {
                                                f2
                                            };
                                            let g = if g0 >= f3 {
                                                g0
                                            } else {
                                                f3
                                            };
                                            lemma_mono_name(name@, rv, mv, sv, direct, f1, g);
                                            lemma_mono_text(
                                                t@,
                                                rv,
                                                entries_view(m1@),
                                                stack_view(s1@),
                                                direct,
                                                f2,
                                                g,
                                            );
                                            lemma_mono_from(
                                                source@,
                                                rv,
                                                entries_view(m2@),
                                                stack_view(s2@),
                                                direct,
                                                end + 1,
                                                o1 + v2v,
                                                f3,
                                                g,
                                            );
                                            assert(spec_resolve_from(
                                                source@,
                                                rv,
                                                mv,
                                                sv,
                                                direct,
                                                c,
                                                out0,
                                                g + 1,
                                            ) == Some(outcome_view(r)));
                                        }
                                        r
                                    },
                                }
                            },
                        },
                    }
                },
            }
        },
    }
}

} // verus!

verus! {

/// The result part of an outcome.
pub open spec fn outcome_result(o: Option<Outcome>) -> Option<Result<Seq<char>, VarErrorView>> {
    match o {
        Some((r, _, _)) => Some(r),
        None => None,
    }
}

/// Replaces every `var()` in `source` by the value resolved for it, or its
/// fallback; the result is trimmed.
pub fn substitute_vars(source: &str, custom_properties: &Vec<(String, String)>) -> (r: Result<
    String,
    VarError,
>)
    ensures
        exists|f: nat|
            outcome_result(
                #[trigger] spec_resolve_text(
                    source@,
                    Seq::<Entry>::empty(),
                    entries_view(custom_properties@),
                    Seq::<Seq<char>>::empty(),
                    true,
                    f,
                ),
            ) == Some(result_view(r)),
{
    let chars = str_to_chars(source);
    let raw: Vec<(String, String)> = Vec::new();
    assert(entries_view(raw@) =~= Seq::<Entry>::empty());
    let memo = crate::storage::copy_entries(custom_properties);
    let stack: Vec<String> = Vec::new();
    assert(stack_view(stack@) =~= Seq::<Seq<char>>::empty());
    let (res, m, s) = resolve_text(chars.as_slice(), &raw, memo, stack, true);
    res
}

/// How the winning declaration of a custom property treats the inherited
/// value: `initial` drops it, `inherit` and `unset` keep it, and any other
/// value replaces it.
#[derive(Clone, Debug, PartialEq, Eq)]
pub enum CustomValue {
    Initial,
    Keep,
    Value(String),
}

pub enum CustomValueView {
    Initial,
    Keep,
    Value(Seq<char>),
}

pub open spec fn custom_value_view(c: CustomValue) -> CustomValueView {
    match c {
        CustomValue::Initial => CustomValueView::Initial,
        CustomValue::Keep => CustomValueView::Keep,
        CustomValue::Value(v) => CustomValueView::Value(v@),
    }
}

pub open spec fn winners_view(w: Seq<(String, CustomValue)>) -> Seq<(Seq<char>, CustomValueView)> {
    Seq::new(w.len(), |i: int| (w[i].0@, custom_value_view(w[i].1)))
}

/// The raw custom properties: the inherited ones with the winners applied.
pub open spec fn spec_apply_winners(raw: Seq<Entry>, winners: Seq<(Seq<char>, CustomValueView)>) -> Seq<Entry>
    decreases winners.len(),
{
    if winners.len() == 0 {
        raw
    } else {
        let prev = spec_apply_winners(raw, winners.drop_last());
        let (name, w) = winners.last();
        match w {
            CustomValueView::Initial => spec_remove(prev, name),
            CustomValueView::Keep => prev,
            CustomValueView::Value(v) => spec_set(prev, name, v),
        }
    }
}

/// Resolution of the first `n` raw names in order, threading the resolved
/// values and collecting each failing name with its error.
pub open spec fn spec_resolve_all(raw: Seq<Entry>, n: int, fuel: nat) -> Option<(Seq<Entry>, Seq<(Seq<char>, VarErrorView)>)>
    decreases n,
{
    if n <= 0 {
        Some((Seq::empty(), Seq::empty()))
    } else {
        match spec_resolve_all(raw, n - 1, fuel) {
            None => None,
            Some((memo, errors)) => match spec_resolve_name(
                raw[n - 1].0,
                raw,
                memo,
                Seq::empty(),
                false,
                fuel,
            ) {
                None => None,
                Some((res, memo2, _)) => Some(
                    (
                        memo2,
                        match res {
                            Err(e) => errors.push((raw[n - 1].0, e)),
                            Ok(_) => errors,
                        },
                    ),
                ),
            },
        }
    }
}

/// The resolved values of the first `n` raw names, in their order.
pub open spec fn resolved_entries(raw: Seq<Entry>, memo: Seq<Entry>, n: int) -> Seq<Entry>
    decreases n,
{
    if n <= 0 {
        Seq::empty()
    } else {
        let prev = resolved_entries(raw, memo, n - 1);
        match lookup_memo(memo, raw[n - 1].0) {
            Some(v) => prev.push((raw[n - 1].0, v)),
            None => prev,
        }
    }
}

pub open spec fn errors_view(e: Seq<(String, VarError)>) -> Seq<(Seq<char>, VarErrorView)> {
    Seq::new(e.len(), |i: int| (e[i].0@, var_error_view(e[i].1)))
}

/// The inherited custom properties.
pub open spec fn parent_entries(parent: Option<&Vec<(String, String)>>) -> Seq<Entry> {
    match parent {
        Some(p) => entries_view(p@),
        None => Seq::<Entry>::empty(),
    }
}

proof fn lemma_mono_all(raw: Seq<Entry>, n: int, f: nat, g: nat)
    requires
        spec_resolve_all(raw, n, f) is Some,
        f <= g,
    ensures
        spec_resolve_all(raw, n, g) == spec_resolve_all(raw, n, f),
    decreases n,
{
    if n > 0 {
        lemma_mono_all(raw, n - 1, f, g);
        let (memo, errors) = spec_resolve_all(raw, n - 1, f)->0;
        lemma_mono_name(raw[n - 1].0, raw, memo, Seq::empty(), false, f, g);
    }
}

/// Resolving a text gives the same outcome at every fuel at which it
/// finishes, so the outcome that `substitute_vars` states is unique.
pub proof fn law_resolve_text_fuel_independent(
    source: Seq<char>,
    raw: Seq<Entry>,
    memo: Seq<Entry>,
    stack: Seq<Seq<char>>,
    direct: bool,
    f: nat,
    g: nat,
)
    requires
        spec_resolve_text(source, raw, memo, stack, direct, f) is Some,
        spec_resolve_text(source, raw, memo, stack, direct, g) is Some,
    ensures
        spec_resolve_text(source, raw, memo, stack, direct, f) == spec_resolve_text(
            source,
            raw,
            memo,
            stack,
            direct,
            g,
        ),
{
    if f <= g {
        lemma_mono_text(source, raw, memo, stack, direct, f, g);
    } else {
        lemma_mono_text(source, raw, memo, stack, direct, g, f);
    }
}

/// Resolving all names gives the same outcome at every fuel at which it
/// finishes, so the outcome that `resolve_custom_properties` states is unique.
pub proof fn law_resolve_all_fuel_independent(raw: Seq<Entry>, n: int, f: nat, g: nat)
    requires
        spec_resolve_all(raw, n, f) is Some,
        spec_resolve_all(raw, n, g) is Some,
    ensures
        spec_resolve_all(raw, n, f) == spec_resolve_all(raw, n, g),
{
    if f <= g {
        lemma_mono_all(raw, n, f, g);
    } else {
        lemma_mono_all(raw, n, g, f);
    }
}

/// The custom properties of an element: the parent's, with the element's
/// winning declarations applied, each resolved in name order; the names that
/// fail are reported with their errors and left out.
pub fn resolve_custom_properties(
    parent: Option<&Vec<(String, String)>>,
    winners: &Vec<(String, CustomValue)>,
) -> (r: (Vec<(String, String)>, Vec<(String, VarError)>))
    requires
        parent matches Some(p) ==> keys_sorted(entries_view(p@)),
    ensures
        ({
            let raw = spec_apply_winners(parent_entries(parent), winners_view(winners@));
            exists|f: nat, memo: Seq<Entry>|
                #[trigger] spec_resolve_all(raw, raw.len() as int, f) == Some(
                    (memo, errors_view(r.1@)),
                ) && entries_view(r.0@) == #[trigger] resolved_entries(raw, memo, raw.len() as int)
        }),
{
    let ghost base = parent_entries(parent);
    let mut raw: Vec<(String, String)> = match parent {
        Some(p) => crate::storage::copy_entries(p),
        None => Vec::new(),
    };
    assert(entries_view(raw@) =~= base);
    let ghost wv = winners_view(winners@);
    let mut w: usize = 0;
    assert(wv.take(0) =~= Seq::<(Seq<char>, CustomValueView)>::empty());
    while w < winners.len()
        invariant
            w <= winners@.len(),
            wv == winners_view(winners@),
            keys_sorted(entries_view(raw@)),
            entries_view(raw@) == spec_apply_winners(base, wv.take(w as int)),
        decreases winners@.len() - w,
    {
        assert(wv.take(w + 1).drop_last() =~= wv.take(w as int));
        match &winners[w].1 {
            CustomValue::Initial => {
                crate::storage::sorted_remove(&mut raw, winners[w].0.as_str());
            },
            CustomValue::Keep => {},
            CustomValue::Value(v) => {
                crate::storage::sorted_set(&mut raw, winners[w].0.clone(), v.clone());
            },
        }
        w += 1;
    }
    assert(wv.take(w as int) =~= wv);
    let ghost rv = entries_view(raw@);
    let mut memo: Vec<(String, String)> = Vec::new();
    let mut errors: Vec<(String, VarError)> = Vec::new();
    assert(entries_view(memo@) =~= Seq::<Entry>::empty());
    assert(errors_view(errors@) =~= Seq::<(Seq<char>, VarErrorView)>::empty());
    assert(spec_resolve_all(rv, 0, 0) == Some((entries_view(memo@), errors_view(errors@))));
    let mut i: usize = 0;
    while i < raw.len()
        invariant
            i <= rv.len(),
            rv == entries_view(raw@),
            rv == spec_apply_winners(base, winners_view(winners@)),
            keys_sorted(rv),
            exists|f: nat|
                #[trigger] spec_resolve_all(rv, i as int, f) == Some(
                    (entries_view(memo@), errors_view(errors@)),
                ),
        decreases rv.len() - i,
    {
        let ghost f0 = choose|f: nat|
            #[trigger] spec_resolve_all(rv, i as int, f) == Some(
                (entries_view(memo@), errors_view(errors@)),
            );
        let ghost mv = entries_view(memo@);
        let ghost ev = errors_view(errors@);
        let stack: Vec<String> = Vec::new();
        assert(stack_view(stack@) =~= Seq::<Seq<char>>::empty());
        let (res, memo2, s2) = resolve_name(raw[i].0.as_str(), &raw, memo, stack, false);
        let ghost name = rv[i as int].0;
        let ghost f1 = choose|f: nat|
            #[trigger] spec_resolve_name(name, rv, mv, Seq::<Seq<char>>::empty(), false, f) == Some(
                (result_view(res), entries_view(memo2@), stack_view(s2@)),
            );
        memo = memo2;
        match res {
            Err(e) => {
                let ghost before = errors_view(errors@);
                errors.push((raw[i].0.clone(), e));
                assert(errors_view(errors@) =~= before.push((name, var_error_view(e))));
            },
            Ok(_) => {},
        }
        proof {
            let g = if f0 >= f1 {
                f0
            } else {
                f1
            };
            lemma_mono_all(rv, i as int, f0, g);
            lemma_mono_name(name, rv, mv, Seq::<Seq<char>>::empty(), false, f1, g);
            assert(spec_resolve_all(rv, i + 1, g) == Some((entries_view(memo@), errors_view(errors@))));
        }
        i += 1;
    }
    let mut resolved: Vec<(String, String)> = Vec::new();
    let mut k: usize = 0;
    assert(entries_view(resolved@) =~= Seq::<Entry>::empty());
    while k < raw.len()
        invariant
            k <= rv.len(),
            rv == entries_view(raw@),
            rv == spec_apply_winners(base, winners_view(winners@)),
            exists|f: nat|
                #[trigger] spec_resolve_all(rv, rv.len() as int, f) == Some(
                    (entries_view(memo@), errors_view(errors@)),
                ),
            entries_view(resolved@) == resolved_entries(rv, entries_view(memo@), k as int),
        decreases rv.len() - k,
    {
        match memo_lookup(&memo, raw[k].0.as_str()) {
            Some(v) => {
                let ghost before = entries_view(resolved@);
                resolved.push((raw[k].0.clone(), v));
                assert(entries_view(resolved@) =~= before.push((rv[k as int].0, v@)));
            },
            None => {},
        }
        k += 1;
    }
    proof {
        let fw = choose|f: nat|
            #[trigger] spec_resolve_all(rv, rv.len() as int, f) == Some(
                (entries_view(memo@), errors_view(errors@)),
            );
        assert(spec_resolve_all(rv, rv.len() as int, fw) == Some(
            (entries_view(memo@), errors_view(errors@)),
        ) && entries_view(resolved@) == resolved_entries(rv, entries_view(memo@), rv.len() as int));
    }
    (resolved, errors)
}

} // verus!
