//! Web Storage areas: string keys kept in key order, with a byte quota.
use vstd::prelude::*;
use crate::text_util::{str_byte_len, str_equal, str_to_chars, utf8_byte_len};

verus! {

/// Default quota of one storage area, in bytes.
pub const DEFAULT_STORAGE_QUOTA_BYTES: usize = 5242880;

/// Why a storage operation failed.
#[derive(Clone, Debug, PartialEq, Eq)]
pub enum StorageError {
    QuotaExceeded { limit: usize },
    Io(String),
    Serialize(String),
}

/// Strict order of keys: lexicographic by code point, which is the order of
/// `String`'s `Ord` (UTF-8 keeps the order of code points).
pub open spec fn key_lt(a: Seq<char>, b: Seq<char>) -> bool
    decreases a.len(),
{
    if b.len() == 0 {
        false
    } else if a.len() == 0 {
        true
    } else if a[0] != b[0] {
        (a[0] as u32) < (b[0] as u32)
    } else {
        key_lt(a.drop_first(), b.drop_first())
    }
}

pub type Entry = (Seq<char>, Seq<char>);

/// Keys strictly increase along the entries.
pub open spec fn keys_sorted(e: Seq<Entry>) -> bool {
    forall|i: int, j: int| 0 <= i < j < e.len() ==> key_lt(#[trigger] e[i].0, #[trigger] e[j].0)
}

/// Number of entries whose key is below `k`; in sorted entries, the index at
/// which `k` is found or would be inserted.
pub open spec fn lower_bound(e: Seq<Entry>, k: Seq<char>) -> int
    decreases e.len(),
{
    if e.len() == 0 {
        0
    } else if key_lt(e.last().0, k) {
        e.len() as int
    } else {
        lower_bound(e.drop_last(), k)
    }
}

/// The value stored under `k`.
pub open spec fn spec_get(e: Seq<Entry>, k: Seq<char>) -> Option<Seq<char>> {
    let p = lower_bound(e, k);
    if p < e.len() && e[p].0 == k {
        Some(e[p].1)
    } else {
        None
    }
}

/// The entries after storing `v` under `k`.
pub open spec fn spec_set(e: Seq<Entry>, k: Seq<char>, v: Seq<char>) -> Seq<Entry> {
    let p = lower_bound(e, k);
    if p < e.len() && e[p].0 == k {
        e.update(p, (k, v))
    } else {
        e.insert(p, (k, v))
    }
}

/// The entries after removing `k`.
pub open spec fn spec_remove(e: Seq<Entry>, k: Seq<char>) -> Seq<Entry> {
    let p = lower_bound(e, k);
    if p < e.len() && e[p].0 == k {
        e.remove(p)
    } else {
        e
    }
}

/// UTF-8 bytes of one entry: its key and its value.
pub open spec fn entry_bytes(x: Entry) -> int {
    utf8_byte_len(x.0) as int + utf8_byte_len(x.1) as int
}

/// UTF-8 bytes of all keys and values.
pub open spec fn entries_bytes(e: Seq<Entry>) -> int
    decreases e.len(),
{
    if e.len() == 0 {
        0
    } else {
        entries_bytes(e.drop_last()) + entry_bytes(e.last())
    }
}

/// One storage area: entries in key order, an optional file that the
/// embedder persists them to, and the byte quota.
#[derive(Clone, Debug)]
pub struct StorageArea {
    entries: Vec<(String, String)>,
    persistence_path: Option<String>,
    quota_bytes: usize,
}

impl StorageArea {
    /// The entries, as key and value character sequences, in key order.
    pub closed spec fn spec_entries(&self) -> Seq<Entry> {
        entries_view(self.entries@)
    }

    pub closed spec fn spec_quota(&self) -> nat {
        self.quota_bytes as nat
    }

    pub closed spec fn spec_path(&self) -> Option<Seq<char>> {
        match self.persistence_path {
            Some(p) => Some(p@),
            None => None,
        }
    }

    /// Keys in strictly increasing order.
    pub open spec fn wf(&self) -> bool {
        keys_sorted(self.spec_entries())
    }

    /// An empty area.
    pub fn empty(persistence_path: Option<String>, quota_bytes: usize) -> (r: Self)
        ensures
            r.wf(),
            r.spec_entries() == Seq::<Entry>::empty(),
            r.spec_quota() == quota_bytes,
            r.spec_path() == (match persistence_path {
                Some(p) => Some(p@),
                None => None::<Seq<char>>,
            }),
    {
        let r = StorageArea { entries: Vec::new(), persistence_path, quota_bytes };
        assert(r.spec_entries() =~= Seq::<Entry>::empty());
        r
    }

    /// An area holding `entries`, which come in key order with no key twice.
    pub fn from_entries(
        persistence_path: Option<String>,
        quota_bytes: usize,
        entries: Vec<(String, String)>,
    ) -> (r: Option<Self>)
        ensures
            r is Some <==> keys_sorted(
                Seq::new(entries@.len(), |i: int| (entries@[i].0@, entries@[i].1@)),
            ),
            r is Some ==> r->0.wf() && r->0.spec_quota() == quota_bytes && r->0.spec_entries()
                == Seq::new(entries@.len(), |i: int| (entries@[i].0@, entries@[i].1@)),
    {
        let ghost e = Seq::new(entries@.len(), |i: int| (entries@[i].0@, entries@[i].1@));
        let mut i: usize = 1;
        if entries.len() > 1 {
            while i < entries.len()
                invariant
                    1 <= i <= entries@.len(),
                    e == Seq::new(entries@.len(), |i: int| (entries@[i].0@, entries@[i].1@)),
                    forall|a: int, b: int| 0 <= a < b < i ==> key_lt(#[trigger] e[a].0, #[trigger] e[b].0),
                decreases entries.len() - i,
            {
                if !str_lt(entries[i - 1].0.as_str(), entries[i].0.as_str()) {
                    assert(!keys_sorted(e)) by {
                        assert(!key_lt(e[i - 1].0, e[i as int].0));
                    }
                    return None;
                }
                proof {
                    assert forall|a: int, b: int| 0 <= a < b < i + 1 implies key_lt(
                        #[trigger] e[a].0,
                        #[trigger] e[b].0,
                    ) by {
                        if b == i && a < i - 1 {
                            lemma_key_lt_trans(e[a].0, e[i - 1].0, e[b].0);
                        }
                    }
                }
                i += 1;
            }
        }
        let r = StorageArea { entries, persistence_path, quota_bytes };
        assert(r.spec_entries() =~= e);
        Some(r)
    }

    /// The file that the embedder persists this area to, if any.
    pub fn persistence_path(&self) -> (r: Option<String>)
        ensures
            r is Some <==> self.spec_path() is Some,
            r is Some ==> r->0@ == self.spec_path()->0,
    {
        self.persistence_path.clone()
    }

    /// The byte quota.
    pub fn quota_bytes(&self) -> (r: usize)
        ensures
            r == self.spec_quota(),
    {
        self.quota_bytes
    }

    /// A copy of the entries in key order.
    pub fn entries(&self) -> (r: Vec<(String, String)>)
        ensures
            entries_view(r@) == self.spec_entries(),
    {
        copy_entries(&self.entries)
    }

    /// Number of stored keys.
    pub fn len(&self) -> (r: usize)
        ensures
            r == self.spec_entries().len(),
    {
        self.entries.len()
    }

    /// The `index`-th key in key order.
    pub fn key(&self, index: usize) -> (r: Option<String>)
        ensures
            r is Some <==> index < self.spec_entries().len(),
            r is Some ==> r->0@ == self.spec_entries()[index as int].0,
    {
        if index < self.entries.len() {
            Some(self.entries[index].0.clone())
        } else {
            None
        }
    }

    /// Index at which `key` is stored or would be inserted.
    fn position(&self, key: &str) -> (p: usize)
        requires
            self.wf(),
        ensures
            p == lower_bound(self.spec_entries(), key@),
            p <= self.spec_entries().len(),
    {
        entries_position(&self.entries, key)
    }

    /// The value stored under `key`.
    pub fn get(&self, key: &str) -> (r: Option<String>)
        requires
            self.wf(),
        ensures
            r is Some <==> spec_get(self.spec_entries(), key@) is Some,
            r is Some ==> r->0@ == spec_get(self.spec_entries(), key@)->0,
    {
        let p = self.position(key);
        if p < self.entries.len() && str_equal(self.entries[p].0.as_str(), key) {
            Some(self.entries[p].1.clone())
        } else {
            None
        }
    }

    /// Bytes of all entries once `key` holds a value of `value_bytes` bytes,
    /// or `None` when that total does not fit in `usize`.
    fn bytes_after_set(&self, p: usize, found: bool, key_bytes: usize, value_bytes: usize) -> (r:
        Option<usize>)
        requires
            p <= self.spec_entries().len(),
            found ==> p < self.spec_entries().len(),
        ensures
            ({
                let e = self.spec_entries();
                let kept = entries_bytes(e) - (if found {
                    entry_bytes(e[p as int])
                } else {
                    0
                });
                match r {
                    Some(n) => n == kept + key_bytes + value_bytes,
                    None => kept + key_bytes + value_bytes > usize::MAX,
                }
            }),
    {
        let ghost e = self.spec_entries();
        let mut total: usize = 0;
        let mut i: usize = 0;
        while i < self.entries.len()
            invariant
                e == self.spec_entries(),
                p <= e.len(),
                found ==> p < e.len(),
                i <= e.len(),
                total == entries_bytes(e.take(i as int)) - (if found && p < i {
                    entry_bytes(e[p as int])
                } else {
                    0
                }),
            decreases e.len() - i,
        {
            proof {
                assert(e.take(i + 1).drop_last() =~= e.take(i as int));
                lemma_entries_bytes_nonneg(e.take(i as int));
                if found && p < i {
                    lemma_entries_bytes_prefix_entry(e, p as int, i as int);
                }
            }
            if !(found && i == p) {
                let kb = str_byte_len(self.entries[i].0.as_str());
                let vb = str_byte_len(self.entries[i].1.as_str());
                assert(entry_bytes(e[i as int]) == kb + vb);
                if kb > usize::MAX - total || vb > usize::MAX - total - kb {
                    proof {
                        lemma_entries_bytes_prefix_le(e, i + 1);
                        lemma_entries_bytes_skip(e, i + 1, p as int, found);
                    }
                    return None;
                }
                total = total + kb + vb;
            }
            i += 1;
        }
        assert(e.take(e.len() as int) =~= e);
        if key_bytes > usize::MAX - total || value_bytes > usize::MAX - total - key_bytes {
            return None;
        }
        Some(total + key_bytes + value_bytes)
    }

    /// Stores `value` under `key`. When the area would then exceed its
    /// quota, it is left unchanged and the quota error is returned.
    pub fn set(&mut self, key: String, value: String) -> (r: Result<(), StorageError>)
        requires
            old(self).wf(),
        ensures
            final(self).wf(),
            final(self).spec_quota() == old(self).spec_quota(),
            final(self).spec_path() == old(self).spec_path(),
            r is Ok <==> entries_bytes(spec_set(old(self).spec_entries(), key@, value@))
                <= old(self).spec_quota(),
            r is Ok ==> final(self).spec_entries() == spec_set(
                old(self).spec_entries(),
                key@,
                value@,
            ),
            r is Err ==> final(self).spec_entries() == old(self).spec_entries() && r == Err::<
                (),
                StorageError,
            >(StorageError::QuotaExceeded { limit: old(self).spec_quota() as usize }),
    {
        let ghost e = self.spec_entries();
        let p = self.position(key.as_str());
        let found = p < self.entries.len() && str_equal(self.entries[p].0.as_str(), key.as_str());
        let key_bytes = str_byte_len(key.as_str());
        let value_bytes = str_byte_len(value.as_str());
        let total = self.bytes_after_set(p, found, key_bytes, value_bytes);
        proof {
            lemma_set_bytes(e, key@, value@);
            lemma_set_sorted(e, key@, value@);
        }
        let exceeds = match total {
            Some(n) => n > self.quota_bytes,
            None => true,
        };
        if exceeds {
            return Err(StorageError::QuotaExceeded { limit: self.quota_bytes });
        }
        if found {
            self.entries.set(p, (key, value));
        } else {
            self.entries.insert(p, (key, value));
        }
        assert(self.spec_entries() =~= spec_set(e, key@, value@));
        Ok(())
    }

    /// Removes `key` if present.
    pub fn remove(&mut self, key: &str) -> (r: Result<(), StorageError>)
        requires
            old(self).wf(),
        ensures
            final(self).wf(),
            r is Ok,
            final(self).spec_quota() == old(self).spec_quota(),
            final(self).spec_path() == old(self).spec_path(),
            final(self).spec_entries() == spec_remove(old(self).spec_entries(), key@),
    {
        let ghost e = self.spec_entries();
        let p = self.position(key);
        if p < self.entries.len() && str_equal(self.entries[p].0.as_str(), key) {
            self.entries.remove(p);
            assert(self.spec_entries() =~= e.remove(p as int));
            proof {
                assert forall|i: int, j: int| 0 <= i < j < e.remove(p as int).len() implies key_lt(
                    #[trigger] e.remove(p as int)[i].0,
                    #[trigger] e.remove(p as int)[j].0,
                ) by {
                    let a = if i < p { i } else { i + 1 };
                    let b = if j < p { j } else { j + 1 };
                    assert(e.remove(p as int)[i] == e[a]);
                    assert(e.remove(p as int)[j] == e[b]);
                }
            }
        }
        Ok(())
    }

    /// Removes every entry.
    pub fn clear(&mut self) -> (r: Result<(), StorageError>)
        ensures
            final(self).wf(),
            r is Ok,
            final(self).spec_quota() == old(self).spec_quota(),
            final(self).spec_path() == old(self).spec_path(),
            final(self).spec_entries() == Seq::<Entry>::empty(),
    {
        self.entries = Vec::new();
        assert(self.spec_entries() =~= Seq::<Entry>::empty());
        Ok(())
    }
}

/// Keys and values of entries as character sequences.
pub open spec fn entries_view(v: Seq<(String, String)>) -> Seq<Entry> {
    Seq::new(v.len(), |i: int| (v[i].0@, v[i].1@))
}

/// A copy of the entries.
pub fn copy_entries(entries: &Vec<(String, String)>) -> (r: Vec<(String, String)>)
    ensures
        entries_view(r@) == entries_view(entries@),
{
    let mut r: Vec<(String, String)> = Vec::new();
    let mut i: usize = 0;
    while i < entries.len()
        invariant
            i <= entries@.len(),
            entries_view(r@) == entries_view(entries@).take(i as int),
        decreases entries@.len() - i,
    {
        let ghost before = entries_view(r@);
        r.push((entries[i].0.clone(), entries[i].1.clone()));
        assert(entries_view(r@) =~= before.push(entries_view(entries@)[i as int]));
        assert(entries_view(entries@).take(i + 1) =~= entries_view(entries@).take(i as int).push(
            entries_view(entries@)[i as int],
        ));
        i += 1;
    }
    assert(entries_view(entries@).take(i as int) =~= entries_view(entries@));
    r
}

/// Index at which `key` is stored or would be inserted in entries kept in
/// key order.
pub fn entries_position(entries: &Vec<(String, String)>, key: &str) -> (p: usize)
    requires
        keys_sorted(entries_view(entries@)),
    ensures
        p == lower_bound(entries_view(entries@), key@),
        p <= entries@.len(),
{
    let ghost e = entries_view(entries@);
    let mut i: usize = 0;
    while i < entries.len() && str_lt(entries[i].0.as_str(), key)
        invariant
            e == entries_view(entries@),
            keys_sorted(e),
            i <= e.len(),
            forall|a: int| 0 <= a < i ==> key_lt(#[trigger] e[a].0, key@),
        decreases e.len() - i,
    {
        assert(e[i as int].0 == entries@[i as int].0@);
        i += 1;
    }
    proof {
        assert forall|a: int| i <= a < e.len() implies !key_lt(#[trigger] e[a].0, key@) by {
            if a > i && key_lt(e[a].0, key@) {
                lemma_key_lt_trans(e[i as int].0, e[a].0, key@);
            }
        }
        lemma_lower_bound_unique(e, key@, i as int);
    }
    i
}

/// The value stored under `key` in entries kept in key order.
pub fn sorted_get(entries: &Vec<(String, String)>, key: &str) -> (r: Option<String>)
    requires
        keys_sorted(entries_view(entries@)),
    ensures
        match r {
            Some(v) => spec_get(entries_view(entries@), key@) == Some(v@),
            None => spec_get(entries_view(entries@), key@) is None,
        },
{
    let p = entries_position(entries, key);
    if p < entries.len() && str_equal(entries[p].0.as_str(), key) {
        Some(entries[p].1.clone())
    } else {
        None
    }
}

/// Stores `value` under `key` in entries kept in key order.
pub fn sorted_set(entries: &mut Vec<(String, String)>, key: String, value: String)
    requires
        keys_sorted(entries_view(old(entries)@)),
    ensures
        keys_sorted(entries_view(final(entries)@)),
        entries_view(final(entries)@) == spec_set(entries_view(old(entries)@), key@, value@),
{
    let ghost e = entries_view(entries@);
    let p = entries_position(entries, key.as_str());
    let found = p < entries.len() && str_equal(entries[p].0.as_str(), key.as_str());
    proof {
        lemma_set_sorted(e, key@, value@);
    }
    let ghost kv = key@;
    let ghost vv = value@;
    if found {
        entries.set(p, (key, value));
    } else {
        entries.insert(p, (key, value));
    }
    assert(entries_view(entries@) =~= spec_set(e, kv, vv));
}

/// Removes `key` from entries kept in key order.
pub fn sorted_remove(entries: &mut Vec<(String, String)>, key: &str)
    requires
        keys_sorted(entries_view(old(entries)@)),
    ensures
        keys_sorted(entries_view(final(entries)@)),
        entries_view(final(entries)@) == spec_remove(entries_view(old(entries)@), key@),
{
    let ghost e = entries_view(entries@);
    proof {
        law_storage_order_kept(e, key@, key@);
    }
    let p = entries_position(entries, key);
    if p < entries.len() && str_equal(entries[p].0.as_str(), key) {
        entries.remove(p);
        assert(entries_view(entries@) =~= e.remove(p as int));
    } else {
        assert(entries_view(entries@) =~= e);
    }
}

/// `a` sorts before `b`.
pub fn str_lt(a: &str, b: &str) -> (r: bool)
    ensures
        r == key_lt(a@, b@),
{
    let x = str_to_chars(a);
    let y = str_to_chars(b);
    let mut i: usize = 0;
    assert(a@.skip(0) =~= a@);
    assert(b@.skip(0) =~= b@);
    while i < x.len() && i < y.len() && x[i] == y[i]
        invariant
            x@ == a@,
            y@ == b@,
            i <= x@.len(),
            i <= y@.len(),
            key_lt(a@, b@) == key_lt(a@.skip(i as int), b@.skip(i as int)),
        decreases x@.len() - i,
    {
        proof {
            let s = a@.skip(i as int);
            let t = b@.skip(i as int);
            assert(s.drop_first() =~= a@.skip(i + 1));
            assert(t.drop_first() =~= b@.skip(i + 1));
            assert(s[0] == t[0]);
        }
        i += 1;
    }
    if i == y.len() {
        false
    } else if i == x.len() {
        true
    } else {
        assert(a@.skip(i as int)[0] == x@[i as int]);
        assert(b@.skip(i as int)[0] == y@[i as int]);
        (x[i] as u32) < (y[i] as u32)
    }
}

/// File name of an origin's local storage: the lowercase hexadecimal digits
/// of each byte of its serialisation, then `.json`.
pub fn origin_file_name(serialized: &str) -> (r: String)
    ensures
        r@ == hex_of(vstd::utf8::encode_utf8(serialized@)) + seq!['.', 'j', 's', 'o', 'n'],
{
    let bytes = serialized.as_bytes();
    let ghost enc = vstd::utf8::encode_utf8(serialized@);
    let mut out = String::new();
    let mut i: usize = 0;
    assert(enc.take(0) =~= Seq::<u8>::empty());
    while i < bytes.len()
        invariant
            bytes@ == enc,
            i <= bytes@.len(),
            out@ == hex_of(enc.take(i as int)),
        decreases bytes@.len() - i,
    {
        let b = bytes[i];
        crate::text_util::string_push(&mut out, hex_digit(b / 16));
        crate::text_util::string_push(&mut out, hex_digit(b % 16));
        assert(enc.take(i + 1).drop_last() =~= enc.take(i as int));
        assert(out@ =~= hex_of(enc.take(i + 1)));
        i += 1;
    }
    assert(enc.take(i as int) =~= enc);
    crate::text_util::string_push(&mut out, '.');
    crate::text_util::string_push(&mut out, 'j');
    crate::text_util::string_push(&mut out, 's');
    crate::text_util::string_push(&mut out, 'o');
    crate::text_util::string_push(&mut out, 'n');
    assert(out@ =~= hex_of(enc) + seq!['.', 'j', 's', 'o', 'n']);
    out
}

pub open spec fn spec_hex_digit(v: u8) -> char {
    if v < 10 {
        (('0' as u8) + v) as char
    } else {
        (('a' as u8) + v - 10) as char
    }
}

/// Two lowercase hexadecimal digits for each byte.
pub open spec fn hex_of(bytes: Seq<u8>) -> Seq<char>
    decreases bytes.len(),
{
    if bytes.len() == 0 {
        Seq::empty()
    } else {
        hex_of(bytes.drop_last()) + seq![
            spec_hex_digit(bytes.last() / 16),
            spec_hex_digit(bytes.last() % 16),
        ]
    }
}

pub(crate) fn hex_digit(v: u8) -> (c: char)
    requires
        v < 16,
    ensures
        c == spec_hex_digit(v),
{
    if v < 10 {
        (('0' as u8) + v) as char
    } else {
        (('a' as u8) + v - 10) as char
    }
}

} // verus!

verus! {

proof fn lemma_key_lt_irreflexive(a: Seq<char>)
    ensures
        !key_lt(a, a),
    decreases a.len(),
{
    if a.len() > 0 {
        lemma_key_lt_irreflexive(a.drop_first());
    }
}

proof fn lemma_key_lt_trans(a: Seq<char>, b: Seq<char>, c: Seq<char>)
    requires
        key_lt(a, b),
        key_lt(b, c),
    ensures
        key_lt(a, c),
    decreases a.len(),
{
    if a.len() > 0 && b.len() > 0 && c.len() > 0 && a[0] == b[0] && b[0] == c[0] {
        lemma_key_lt_trans(a.drop_first(), b.drop_first(), c.drop_first());
    }
}

proof fn lemma_key_lt_total(a: Seq<char>, b: Seq<char>)
    requires
        a != b,
    ensures
        key_lt(a, b) || key_lt(b, a),
    decreases a.len(),
{
    if a.len() > 0 && b.len() > 0 && a[0] == b[0] {
        if a.drop_first() == b.drop_first() {
            assert(a =~= seq![a[0]] + a.drop_first());
            assert(b =~= seq![b[0]] + b.drop_first());
        }
        lemma_key_lt_total(a.drop_first(), b.drop_first());
    } else if a.len() == 0 && b.len() == 0 {
        assert(a =~= b);
    } else if a.len() > 0 && b.len() > 0 {
        vstd::utf8::char_u32_cast(a[0], a[0] as u32);
        vstd::utf8::char_u32_cast(b[0], b[0] as u32);
    }
}

proof fn lemma_lower_bound_props(e: Seq<Entry>, k: Seq<char>)
    requires
        keys_sorted(e),
    ensures
        0 <= lower_bound(e, k) <= e.len(),
        forall|i: int| 0 <= i < lower_bound(e, k) ==> key_lt(#[trigger] e[i].0, k),
        forall|i: int| lower_bound(e, k) <= i < e.len() ==> !key_lt(#[trigger] e[i].0, k),
    decreases e.len(),
{
    if e.len() > 0 {
        let n = e.len() - 1;
        let d = e.drop_last();
        assert(keys_sorted(d)) by {
            assert forall|i: int, j: int| 0 <= i < j < d.len() implies key_lt(
                #[trigger] d[i].0,
                #[trigger] d[j].0,
            ) by {
                assert(d[i] == e[i] && d[j] == e[j]);
            }
        }
        lemma_lower_bound_props(d, k);
        if key_lt(e[n].0, k) {
            assert forall|i: int| 0 <= i < e.len() implies key_lt(#[trigger] e[i].0, k) by {
                if i < n {
                    lemma_key_lt_trans(e[i].0, e[n].0, k);
                }
            }
        } else {
            assert forall|i: int| 0 <= i < lower_bound(e, k) implies key_lt(#[trigger] e[i].0, k) by {
                assert(d[i] == e[i]);
            }
            assert forall|i: int| lower_bound(e, k) <= i < e.len() implies !key_lt(
                #[trigger] e[i].0,
                k,
            ) by {
                if i < n {
                    assert(d[i] == e[i]);
                }
            }
        }
    }
}

proof fn lemma_lower_bound_unique(e: Seq<Entry>, k: Seq<char>, q: int)
    requires
        keys_sorted(e),
        0 <= q <= e.len(),
        forall|i: int| 0 <= i < q ==> key_lt(#[trigger] e[i].0, k),
        forall|i: int| q <= i < e.len() ==> !key_lt(#[trigger] e[i].0, k),
    ensures
        lower_bound(e, k) == q,
{
    lemma_lower_bound_props(e, k);
    let p = lower_bound(e, k);
    if p < q {
        assert(key_lt(e[p].0, k));
    } else if p > q {
        assert(key_lt(e[q].0, k));
    }
}

/// In sorted entries, a key is found exactly where it is stored.
proof fn lemma_get_at(e: Seq<Entry>, i: int)
    requires
        keys_sorted(e),
        0 <= i < e.len(),
    ensures
        lower_bound(e, e[i].0) == i,
{
    let k = e[i].0;
    lemma_key_lt_irreflexive(k);
    assert forall|a: int| i <= a < e.len() implies !key_lt(#[trigger] e[a].0, k) by {
        if a > i && key_lt(e[a].0, k) {
            lemma_key_lt_trans(e[i].0, e[a].0, k);
            lemma_key_lt_irreflexive(k);
        }
    }
    lemma_lower_bound_unique(e, k, i);
}

proof fn lemma_set_sorted(e: Seq<Entry>, k: Seq<char>, v: Seq<char>)
    requires
        keys_sorted(e),
    ensures
        keys_sorted(spec_set(e, k, v)),
        0 <= lower_bound(e, k) <= e.len(),
{
    lemma_lower_bound_props(e, k);
    let p = lower_bound(e, k);
    let s = spec_set(e, k, v);
    if p < e.len() && e[p].0 == k {
        assert forall|i: int, j: int| 0 <= i < j < s.len() implies key_lt(
            #[trigger] s[i].0,
            #[trigger] s[j].0,
        ) by {
            assert(s[i].0 == e[i].0 && s[j].0 == e[j].0);
        }
    } else {
        assert forall|i: int| p <= i < e.len() implies key_lt(k, #[trigger] e[i].0) by {
            if e[i].0 == k {
                if i > p {
                    lemma_key_lt_trans(e[p].0, e[i].0, k);
                }
            } else {
                lemma_key_lt_total(e[i].0, k);
            }
        }
        assert forall|i: int, j: int| 0 <= i < j < s.len() implies key_lt(
            #[trigger] s[i].0,
            #[trigger] s[j].0,
        ) by {
            if i < p && j < p {
                assert(s[i] == e[i] && s[j] == e[j]);
            } else if i < p && j == p {
                assert(s[i] == e[i]);
            } else if i < p {
                assert(s[i] == e[i] && s[j] == e[j - 1]);
                lemma_key_lt_trans(e[i].0, k, e[j - 1].0);
            } else if i == p {
                assert(s[j] == e[j - 1]);
            } else {
                assert(s[i] == e[i - 1] && s[j] == e[j - 1]);
            }
        }
    }
}

proof fn lemma_entries_bytes_concat(a: Seq<Entry>, b: Seq<Entry>)
    ensures
        entries_bytes(a + b) == entries_bytes(a) + entries_bytes(b),
    decreases b.len(),
{
    if b.len() > 0 {
        lemma_entries_bytes_concat(a, b.drop_last());
        assert((a + b).drop_last() =~= a + b.drop_last());
    } else {
        assert(a + b =~= a);
    }
}

proof fn lemma_entries_bytes_single(x: Entry)
    ensures
        entries_bytes(seq![x]) == entry_bytes(x),
{
    assert(seq![x].drop_last() =~= Seq::<Entry>::empty());
    assert(seq![x].last() == x);
    assert(entries_bytes(Seq::<Entry>::empty()) == 0);
    assert(entries_bytes(seq![x]) == entries_bytes(seq![x].drop_last()) + entry_bytes(x));
}

proof fn lemma_entries_bytes_nonneg(e: Seq<Entry>)
    ensures
        entries_bytes(e) >= 0,
    decreases e.len(),
{
    if e.len() > 0 {
        lemma_entries_bytes_nonneg(e.drop_last());
    }
}

proof fn lemma_entries_bytes_prefix_entry(e: Seq<Entry>, p: int, i: int)
    requires
        0 <= p < i <= e.len(),
    ensures
        entries_bytes(e.take(i)) >= entry_bytes(e[p]),
{
    assert(e.take(i) =~= e.take(p) + seq![e[p]] + e.skip(p + 1).take(i - p - 1));
    lemma_entries_bytes_concat(e.take(p) + seq![e[p]], e.skip(p + 1).take(i - p - 1));
    lemma_entries_bytes_concat(e.take(p), seq![e[p]]);
    lemma_entries_bytes_single(e[p]);
    lemma_entries_bytes_nonneg(e.take(p));
    lemma_entries_bytes_nonneg(e.skip(p + 1).take(i - p - 1));
}

proof fn lemma_entries_bytes_prefix_le(e: Seq<Entry>, i: int)
    requires
        0 <= i <= e.len(),
    ensures
        entries_bytes(e.take(i)) <= entries_bytes(e),
{
    assert(e =~= e.take(i) + e.skip(i));
    lemma_entries_bytes_concat(e.take(i), e.skip(i));
    lemma_entries_bytes_nonneg(e.skip(i));
}

/// The bytes of all entries but the skipped one grow with the prefix.
proof fn lemma_entries_bytes_skip(e: Seq<Entry>, i: int, p: int, found: bool)
    requires
        0 < i <= e.len(),
        0 <= p <= e.len(),
        found ==> p < e.len(),
        !(found && p == i - 1),
    ensures
        entries_bytes(e.take(i)) - (if found && p < i {
            entry_bytes(e[p])
        } else {
            0
        }) <= entries_bytes(e) - (if found {
            entry_bytes(e[p])
        } else {
            0
        }),
{
    if found {
        if p < i {
            assert(e =~= e.take(i) + e.skip(i));
            lemma_entries_bytes_concat(e.take(i), e.skip(i));
            lemma_entries_bytes_nonneg(e.skip(i));
        } else {
            assert(e =~= e.take(i) + e.skip(i));
            lemma_entries_bytes_concat(e.take(i), e.skip(i));
            assert(e.skip(i) =~= e.skip(i).take(p - i) + seq![e[p]] + e.skip(p + 1));
            lemma_entries_bytes_concat(e.skip(i).take(p - i) + seq![e[p]], e.skip(p + 1));
            lemma_entries_bytes_concat(e.skip(i).take(p - i), seq![e[p]]);
            lemma_entries_bytes_single(e[p]);
            lemma_entries_bytes_nonneg(e.skip(i).take(p - i));
            lemma_entries_bytes_nonneg(e.skip(p + 1));
        }
    } else {
        lemma_entries_bytes_prefix_le(e, i);
    }
}

proof fn lemma_set_bytes(e: Seq<Entry>, k: Seq<char>, v: Seq<char>)
    requires
        0 <= lower_bound(e, k) <= e.len(),
    ensures
        entries_bytes(spec_set(e, k, v)) == entries_bytes(e) - (if lower_bound(e, k) < e.len()
            && e[lower_bound(e, k)].0 == k {
            entry_bytes(e[lower_bound(e, k)])
        } else {
            0
        }) + utf8_byte_len(k) + utf8_byte_len(v),
{
    let p = lower_bound(e, k);
    let x = (k, v);
    lemma_entries_bytes_single(x);
    lemma_entries_bytes_concat(e.take(p), seq![x]);
    if p < e.len() && e[p].0 == k {
        assert(e =~= e.take(p) + seq![e[p]] + e.skip(p + 1));
        assert(e.update(p, x) =~= e.take(p) + seq![x] + e.skip(p + 1));
        lemma_entries_bytes_concat(e.take(p) + seq![e[p]], e.skip(p + 1));
        lemma_entries_bytes_concat(e.take(p) + seq![x], e.skip(p + 1));
        lemma_entries_bytes_concat(e.take(p), seq![e[p]]);
        lemma_entries_bytes_single(e[p]);
    } else {
        assert(e =~= e.take(p) + e.skip(p));
        assert(e.insert(p, x) =~= e.take(p) + seq![x] + e.skip(p));
        lemma_entries_bytes_concat(e.take(p), e.skip(p));
        lemma_entries_bytes_concat(e.take(p) + seq![x], e.skip(p));
    }
}

/// A read gives back what the last write stored, and a write leaves every
/// other key as it was.
pub proof fn law_storage_get_after_set(e: Seq<Entry>, k: Seq<char>, v: Seq<char>, other: Seq<char>)
    requires
        keys_sorted(e),
    ensures
        spec_get(spec_set(e, k, v), k) == Some(v),
        other != k ==> spec_get(spec_set(e, k, v), other) == spec_get(e, other),
{
    lemma_set_sorted(e, k, v);
    lemma_lower_bound_props(e, k);
    let p = lower_bound(e, k);
    let s = spec_set(e, k, v);
    assert(s[p] == (k, v));
    lemma_get_at(s, p);
    if other != k {
        lemma_lower_bound_props(e, other);
        lemma_lower_bound_props(s, other);
        let q = lower_bound(e, other);
        let r = lower_bound(s, other);
        if q < e.len() && e[q].0 == other {
            let j = if p < e.len() && e[p].0 == k {
                q
            } else if q < p {
                q
            } else {
                q + 1
            };
            assert(s[j] == e[q]);
            lemma_get_at(s, j);
        } else if r < s.len() && s[r].0 == other {
            let j = if p < e.len() && e[p].0 == k {
                r
            } else if r < p {
                r
            } else {
                r - 1
            };
            assert(e[j] == s[r]);
            lemma_get_at(e, j);
        }
    }
}

/// After a removal the key reads as absent, and every other key reads as
/// before.
pub proof fn law_storage_get_after_remove(e: Seq<Entry>, k: Seq<char>, other: Seq<char>)
    requires
        keys_sorted(e),
    ensures
        spec_get(spec_remove(e, k), k) is None,
        other != k ==> spec_get(spec_remove(e, k), other) == spec_get(e, other),
{
    lemma_lower_bound_props(e, k);
    let p = lower_bound(e, k);
    let s = spec_remove(e, k);
    let found = p < e.len() && e[p].0 == k;
    assert forall|i: int, j: int| 0 <= i < j < s.len() implies key_lt(
        #[trigger] s[i].0,
        #[trigger] s[j].0,
    ) by {
        let a = if found && i >= p { i + 1 } else { i };
        let b = if found && j >= p { j + 1 } else { j };
        assert(s[i] == e[a] && s[j] == e[b]);
    }
    lemma_lower_bound_props(s, k);
    let r = lower_bound(s, k);
    if r < s.len() && s[r].0 == k {
        let a = if found && r >= p { r + 1 } else { r };
        assert(s[r] == e[a]);
        lemma_get_at(e, a);
    }
    if other != k {
        lemma_lower_bound_props(e, other);
        lemma_lower_bound_props(s, other);
        let q = lower_bound(e, other);
        let t = lower_bound(s, other);
        if q < e.len() && e[q].0 == other {
            let j = if found && q > p { q - 1 } else { q };
            assert(s[j] == e[q]);
            lemma_get_at(s, j);
        } else if t < s.len() && s[t].0 == other {
            let j = if found && t >= p { t + 1 } else { t };
            assert(e[j] == s[t]);
            lemma_get_at(e, j);
        }
    }
}

/// Keys stay in strictly increasing order through writes and removals.
pub proof fn law_storage_order_kept(e: Seq<Entry>, k: Seq<char>, v: Seq<char>)
    requires
        keys_sorted(e),
    ensures
        keys_sorted(spec_set(e, k, v)),
        keys_sorted(spec_remove(e, k)),
{
    lemma_set_sorted(e, k, v);
    lemma_lower_bound_props(e, k);
    let p = lower_bound(e, k);
    let s = spec_remove(e, k);
    let found = p < e.len() && e[p].0 == k;
    assert forall|i: int, j: int| 0 <= i < j < s.len() implies key_lt(
        #[trigger] s[i].0,
        #[trigger] s[j].0,
    ) by {
        let a = if found && i >= p { i + 1 } else { i };
        let b = if found && j >= p { j + 1 } else { j };
        assert(s[i] == e[a] && s[j] == e[b]);
    }
}

} // verus!
