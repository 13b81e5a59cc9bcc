//! Bounded static image decoding, data URLs, and a recency-ordered image cache.
use vstd::prelude::*;
use base64::Engine as _;
use crate::text_util::{
    ascii_lower_byte, ascii_lower_seq, decimal, is_ascii_ws_byte, split_on, string_push, str_to_chars,
    trim_class, u64_to_decimal, TrimClass,
};

verus! {

/// Largest accepted image side.
pub const MAX_IMAGE_DIMENSION: u32 = 4096;

/// Largest accepted number of pixels.
pub const MAX_IMAGE_PIXELS: u64 = 16777216;

/// Default number of cache entries.
pub const DEFAULT_IMAGE_CACHE_ENTRIES: usize = 64;

/// Format of a decoded image.
#[derive(Clone, Copy, Debug, PartialEq, Eq, Structural)]
pub enum ImageKind {
    Png,
    Jpeg,
    Gif,
    Svg,
}

/// A decoded image: premultiplied RGBA8 pixels, row by row.
#[derive(Clone, Debug, PartialEq, Eq)]
pub struct ImageResource {
    pub source_url: String,
    pub width: u32,
    pub height: u32,
    pub kind: ImageKind,
    pub pixels: Vec<u8>,
}

/// The plain contents of an image resource.
pub open spec fn resource_view(r: ImageResource) -> (Seq<char>, u32, u32, ImageKind, Seq<u8>) {
    (r.source_url@, r.width, r.height, r.kind, r.pixels@)
}

/// A copy of an image resource.
pub fn copy_resource(r: &ImageResource) -> (c: ImageResource)
    ensures
        resource_view(c) == resource_view(*r),
{
    let url = str_to_chars(r.source_url.as_str());
    let mut pixels: Vec<u8> = Vec::new();
    let mut i: usize = 0;
    while i < r.pixels.len()
        invariant
            i <= r.pixels@.len(),
            pixels@ == r.pixels@.take(i as int),
        decreases r.pixels@.len() - i,
    {
        pixels.push(r.pixels[i]);
        assert(pixels@ =~= r.pixels@.take(i + 1));
        i += 1;
    }
    assert(r.pixels@.take(i as int) =~= r.pixels@);
    ImageResource {
        source_url: crate::text_util::chars_to_string(url.as_slice()),
        width: r.width,
        height: r.height,
        kind: r.kind,
        pixels,
    }
}

/// Counters of one image cache.
#[derive(Clone, Copy, Debug, PartialEq, Eq, Structural)]
pub struct ImageCacheMetrics {
    pub hits: u64,
    pub misses: u64,
    pub decodes: u64,
    pub evictions: u64,
    pub resident_entries: usize,
    pub resident_bytes: usize,
}

impl Default for ImageCacheMetrics {
    fn default() -> (r: Self)
        ensures
            r == (ImageCacheMetrics {
                hits: 0,
                misses: 0,
                decodes: 0,
                evictions: 0,
                resident_entries: 0,
                resident_bytes: 0,
            }),
    {
        ImageCacheMetrics {
            hits: 0,
            misses: 0,
            decodes: 0,
            evictions: 0,
            resident_entries: 0,
            resident_bytes: 0,
        }
    }
}

pub open spec fn sat_inc(v: u64) -> u64 {
    if v == u64::MAX {
        v
    } else {
        (v + 1) as u64
    }
}

/// Each of the hit, miss, decode and eviction counters of `b` is at least that of `a`.
pub open spec fn counters_grow(a: (u64, u64, u64, u64), b: (u64, u64, u64, u64)) -> bool {
    a.0 <= b.0 && a.1 <= b.1 && a.2 <= b.2 && a.3 <= b.3
}

/// The cache counters never decrease: what each call keeps, a run of calls keeps.
pub proof fn law_counters_never_decrease(
    a: (u64, u64, u64, u64),
    b: (u64, u64, u64, u64),
    c: (u64, u64, u64, u64),
)
    requires
        counters_grow(a, b),
        counters_grow(b, c),
    ensures
        counters_grow(a, c),
{
}

pub type CacheEntry = (Seq<char>, (Seq<char>, u32, u32, ImageKind, Seq<u8>));

/// Number of pixel bytes held by the entries.
pub open spec fn pixel_bytes(e: Seq<CacheEntry>) -> int
    decreases e.len(),
{
    if e.len() == 0 {
        0
    } else {
        pixel_bytes(e.drop_last()) + e.last().1.4.len()
    }
}

/// Index of `key` among the entries.
pub open spec fn entry_index(e: Seq<CacheEntry>, key: Seq<char>) -> Option<int>
    decreases e.len(),
{
    if e.len() == 0 {
        None
    } else if e.last().0 == key {
        Some(e.len() - 1)
    } else {
        entry_index(e.drop_last(), key)
    }
}

/// Keys occur at most once.
pub open spec fn keys_unique(e: Seq<CacheEntry>) -> bool {
    forall|i: int, j: int| 0 <= i < j < e.len() ==> (#[trigger] e[i]).0 != (#[trigger] e[j]).0
}

/// The entries once `key` was used: it moves to the most recent place.
pub open spec fn spec_touch(e: Seq<CacheEntry>, i: int) -> Seq<CacheEntry> {
    e.remove(i).push(e[i])
}

/// The entries after storing `value` under `key`, dropping the least
/// recently used entries beyond `max`.
pub open spec fn spec_cache_insert(e: Seq<CacheEntry>, key: Seq<char>, value: (Seq<char>, u32, u32, ImageKind, Seq<u8>), max: int) -> Seq<CacheEntry> {
    let kept = match entry_index(e, key) {
        Some(i) => e.remove(i),
        None => e,
    };
    let added = kept.push((key, value));
    if added.len() > max {
        added.skip(added.len() - max)
    } else {
        added
    }
}

/// A bounded image cache whose entries are ordered from least to most
/// recently used.
#[derive(Debug)]
pub struct ImageCache {
    max_entries: usize,
    entries: Vec<(String, ImageResource)>,
    metrics: ImageCacheMetrics,
}

impl ImageCache {
    pub closed spec fn spec_entries(&self) -> Seq<CacheEntry> {
        Seq::new(self.entries@.len(), |i: int| (self.entries@[i].0@, resource_view(self.entries@[i].1)))
    }

    pub closed spec fn spec_max(&self) -> int {
        self.max_entries as int
    }

    pub closed spec fn spec_counters(&self) -> (u64, u64, u64, u64) {
        (self.metrics.hits, self.metrics.misses, self.metrics.decodes, self.metrics.evictions)
    }

    /// At most `max` entries, at least one allowed, and no key twice.
    pub open spec fn wf(&self) -> bool {
        &&& self.spec_max() >= 1
        &&& self.spec_entries().len() <= self.spec_max()
        &&& keys_unique(self.spec_entries())
    }

    /// An empty cache holding at most `max_entries` (at least one) images.
    pub fn new(max_entries: usize) -> (r: Self)
        ensures
            r.wf(),
            r.spec_max() == (if max_entries >= 1 { max_entries as int } else { 1 }),
            r.spec_entries() == Seq::<CacheEntry>::empty(),
            r.spec_counters() == (0u64, 0u64, 0u64, 0u64),
    {
        let r = ImageCache {
            max_entries: if max_entries >= 1 {
                max_entries
            } else {
                1
            },
            entries: Vec::new(),
            metrics: ImageCacheMetrics::default(),
        };
        assert(r.spec_entries() =~= Seq::<CacheEntry>::empty());
        r
    }

    /// The counters, with the number of resident entries and pixel bytes.
    pub fn metrics(&self) -> (r: ImageCacheMetrics)
        requires
            pixel_bytes(self.spec_entries()) <= usize::MAX,
        ensures
            (r.hits, r.misses, r.decodes, r.evictions) == self.spec_counters(),
            r.resident_entries == self.spec_entries().len(),
            self.wf() ==> r.resident_entries <= self.spec_max(),
            r.resident_bytes == pixel_bytes(self.spec_entries()),
    {
        let ghost e = self.spec_entries();
        let mut total: usize = 0;
        let mut i: usize = 0;
        assert(e.take(0) =~= Seq::<CacheEntry>::empty());
        while i < self.entries.len()
            invariant
                e == self.spec_entries(),
                i <= e.len(),
                pixel_bytes(e) <= usize::MAX,
                total == pixel_bytes(e.take(i as int)),
            decreases e.len() - i,
        {
            proof {
                assert(e.take(i + 1).drop_last() =~= e.take(i as int));
                lemma_pixel_bytes_prefix(e, i + 1);
            }
            total = total + self.entries[i].1.pixels.len();
            i += 1;
        }
        assert(e.take(i as int) =~= e);
        ImageCacheMetrics {
            resident_entries: self.entries.len(),
            resident_bytes: total,
            ..self.metrics
        }
    }

    fn find(&self, key: &str) -> (r: Option<usize>)
        ensures
            match r {
                Some(i) => entry_index(self.spec_entries(), key@) == Some(i as int) && i
                    < self.spec_entries().len(),
                None => entry_index(self.spec_entries(), key@) is None,
            },
    {
        let ghost e = self.spec_entries();
        let mut i = self.entries.len();
        assert(e.take(i as int) =~= e);
        while i > 0
            invariant
                e == self.spec_entries(),
                i <= e.len(),
                entry_index(e, key@) == entry_index(e.take(i as int), key@),
            decreases i,
        {
            proof {
                assert(e.take(i as int).drop_last() =~= e.take(i - 1));
            }
            if crate::text_util::str_equal(self.entries[i - 1].0.as_str(), key) {
                return Some(i - 1);
            }
            i -= 1;
        }
        None
    }

    /// The image stored under `key`, counting a hit (and making it the most
    /// recently used) or a miss.
    pub fn get(&mut self, key: &str) -> (r: Option<ImageResource>)
        requires
            old(self).wf(),
        ensures
            counters_grow(old(self).spec_counters(), final(self).spec_counters()),
            final(self).wf(),
            final(self).spec_max() == old(self).spec_max(),
            ({
                let (h, m, d, ev) = old(self).spec_counters();
                match entry_index(old(self).spec_entries(), key@) {
                    Some(i) => {
                        &&& r matches Some(res) && resource_view(res) == old(self).spec_entries()[i].1
                        &&& final(self).spec_entries() == spec_touch(old(self).spec_entries(), i)
                        &&& final(self).spec_counters() == (sat_inc(h), m, d, ev)
                    },
                    None => {
                        &&& r is None
                        &&& final(self).spec_entries() == old(self).spec_entries()
                        &&& final(self).spec_counters() == (h, sat_inc(m), d, ev)
                    },
                }
            }),
    {
        let ghost e = self.spec_entries();
        match self.find(key) {
            Some(i) => {
                self.metrics.hits = if self.metrics.hits == u64::MAX {
                    u64::MAX
                } else {
                    self.metrics.hits + 1
                };
                let entry = self.entries.remove(i);
                let value = copy_resource(&entry.1);
                self.entries.push(entry);
                proof {
                    assert(self.spec_entries() =~= spec_touch(e, i as int));
                    lemma_touch_unique(e, i as int);
                }
                Some(value)
            },
            None => {
                self.metrics.misses = if self.metrics.misses == u64::MAX {
                    u64::MAX
                } else {
                    self.metrics.misses + 1
                };
                assert(self.spec_entries() =~= e);
                None
            },
        }
    }

    /// Stores `resource` under `key` as the most recently used entry and
    /// evicts the least recently used entries beyond the limit.
    pub fn insert(&mut self, key: String, resource: ImageResource)
        requires
            old(self).wf(),
        ensures
            counters_grow(old(self).spec_counters(), final(self).spec_counters()),
            final(self).wf(),
            final(self).spec_max() == old(self).spec_max(),
            final(self).spec_entries() == spec_cache_insert(
                old(self).spec_entries(),
                key@,
                resource_view(resource),
                old(self).spec_max(),
            ),
            ({
                let (h, m, d, ev) = old(self).spec_counters();
                let kept = match entry_index(old(self).spec_entries(), key@) {
                    Some(i) => old(self).spec_entries().len() - 1,
                    None => old(self).spec_entries().len() as int,
                };
                final(self).spec_counters() == (h, m, d, if kept + 1 > old(self).spec_max() {
                    sat_inc(ev)
                } else {
                    ev
                })
            }),
    {
        let ghost e = self.spec_entries();
        let ghost value = resource_view(resource);
        let ghost kv = key@;
        match self.find(key.as_str()) {
            Some(i) => {
                self.entries.remove(i);
                assert(self.spec_entries() =~= e.remove(i as int));
            },
            None => {
                assert(self.spec_entries() =~= e);
            },
        }
        let ghost kept = self.spec_entries();
        proof {
            lemma_entry_index_some(e, kv);
            lemma_remove_unique(e, kv);
        }
        self.entries.push((key, resource));
        assert(self.spec_entries() =~= kept.push((kv, value)));
        if self.entries.len() > self.max_entries {
            self.entries.remove(0);
            self.metrics.evictions = if self.metrics.evictions == u64::MAX {
                u64::MAX
            } else {
                self.metrics.evictions + 1
            };
            assert(self.spec_entries() =~= kept.push((kv, value)).skip(1));
        }
        proof {
            let added = kept.push((kv, value));
            assert forall|a: int, b: int| 0 <= a < b < added.len() implies (#[trigger] added[a]).0
                != (#[trigger] added[b]).0 by {
                if b == added.len() - 1 {
                    assert(added[a] == kept[a]);
                    lemma_entry_absent(kept, kv, a);
                } else {
                    assert(added[a] == kept[a] && added[b] == kept[b]);
                }
            }
            let fin = self.spec_entries();
            assert forall|a: int, b: int| 0 <= a < b < fin.len() implies (#[trigger] fin[a]).0
                != (#[trigger] fin[b]).0 by {
                if added.len() > self.max_entries {
                    assert(fin[a] == added[a + 1] && fin[b] == added[b + 1]);
                } else {
                    assert(fin[a] == added[a] && fin[b] == added[b]);
                }
            }
        }
    }

    /// Counts one decode.
    pub fn record_decode(&mut self)
        ensures
            counters_grow(old(self).spec_counters(), final(self).spec_counters()),
            final(self).spec_entries() == old(self).spec_entries(),
            final(self).spec_max() == old(self).spec_max(),
            ({
                let (h, m, d, ev) = old(self).spec_counters();
                final(self).spec_counters() == (h, m, sat_inc(d), ev)
            }),
    {
        self.metrics.decodes = if self.metrics.decodes == u64::MAX {
            u64::MAX
        } else {
            self.metrics.decodes + 1
        };
    }
}

impl Default for ImageCache {
    fn default() -> (r: Self)
        ensures
            r.wf(),
            r.spec_max() == 64,
            r.spec_entries() == Seq::<CacheEntry>::empty(),
            r.spec_counters() == (0u64, 0u64, 0u64, 0u64),
    {
        Self::new(DEFAULT_IMAGE_CACHE_ENTRIES)
    }
}

proof fn lemma_pixel_bytes_prefix(e: Seq<CacheEntry>, i: int)
    requires
        0 <= i <= e.len(),
    ensures
        pixel_bytes(e.take(i)) <= pixel_bytes(e),
    decreases e.len() - i,
{
    if i < e.len() {
        lemma_pixel_bytes_prefix(e, i + 1);
        assert(e.take(i + 1).drop_last() =~= e.take(i));
    } else {
        assert(e.take(i) =~= e);
    }
}

proof fn lemma_entry_index_some(e: Seq<CacheEntry>, key: Seq<char>)
    ensures
        match entry_index(e, key) {
            Some(i) => 0 <= i < e.len() && e[i].0 == key,
            None => forall|j: int| 0 <= j < e.len() ==> (#[trigger] e[j]).0 != key,
        },
    decreases e.len(),
{
    if e.len() > 0 && e.last().0 != key {
        lemma_entry_index_some(e.drop_last(), key);
        if entry_index(e, key) is None {
            assert forall|j: int| 0 <= j < e.len() implies (#[trigger] e[j]).0 != key by {
                if j < e.len() - 1 {
                    assert(e[j] == e.drop_last()[j]);
                }
            }
        }
    }
}

proof fn lemma_entry_absent(e: Seq<CacheEntry>, key: Seq<char>, a: int)
    requires
        entry_index(e, key) is None,
        0 <= a < e.len(),
    ensures
        e[a].0 != key,
{
    lemma_entry_index_some(e, key);
}

/// After removing the entry for `key`, the key is absent and the rest stays unique.
proof fn lemma_remove_unique(e: Seq<CacheEntry>, key: Seq<char>)
    requires
        keys_unique(e),
    ensures
        ({
            let kept = match entry_index(e, key) {
                Some(i) => e.remove(i),
                None => e,
            };
            &&& entry_index(kept, key) is None
            &&& keys_unique(kept)
        }),
{
    lemma_entry_index_some(e, key);
    match entry_index(e, key) {
        Some(i) => {
            let kept = e.remove(i);
            assert forall|j: int| 0 <= j < kept.len() implies (#[trigger] kept[j]).0 != key by {
                if j < i {
                    assert(kept[j] == e[j]);
                } else {
                    assert(kept[j] == e[j + 1]);
                }
            }
            lemma_absent_index(kept, key);
            assert forall|a: int, b: int| 0 <= a < b < kept.len() implies (#[trigger] kept[a]).0
                != (#[trigger] kept[b]).0 by {
                let x = if a < i { a } else { a + 1 };
                let y = if b < i { b } else { b + 1 };
                assert(kept[a] == e[x] && kept[b] == e[y]);
            }
        },
        None => {},
    }
}

proof fn lemma_absent_index(e: Seq<CacheEntry>, key: Seq<char>)
    requires
        forall|j: int| 0 <= j < e.len() ==> (#[trigger] e[j]).0 != key,
    ensures
        entry_index(e, key) is None,
    decreases e.len(),
{
    if e.len() > 0 {
        assert(e[e.len() - 1].0 != key);
        assert forall|j: int| 0 <= j < e.drop_last().len() implies (#[trigger] e.drop_last()[j]).0
            != key by {
            assert(e.drop_last()[j] == e[j]);
        }
        lemma_absent_index(e.drop_last(), key);
    }
}

proof fn lemma_touch_unique(e: Seq<CacheEntry>, i: int)
    requires
        keys_unique(e),
        0 <= i < e.len(),
    ensures
        keys_unique(spec_touch(e, i)),
{
    let t = spec_touch(e, i);
    assert forall|a: int, b: int| 0 <= a < b < t.len() implies (#[trigger] t[a]).0 != (
    #[trigger] t[b]).0 by {
        let x = if a < i { a } else { a + 1 };
        assert(t[a] == e[x]);
        if b == t.len() - 1 {
            assert(t[b] == e[i]);
        } else {
            let y = if b < i { b } else { b + 1 };
            assert(t[b] == e[y]);
        }
    }
}

/// The message for rejected image dimensions.
pub open spec fn dimension_message(width: u32, height: u32) -> Seq<char> {
    "image dimensions "@ + decimal(width as nat) + "x"@ + decimal(height as nat)
        + " exceed the decoder limit"@
}

/// Whether a decoded image's dimensions are within the decoder limits.
pub open spec fn dimensions_ok(width: u32, height: u32) -> bool {
    &&& width != 0
    &&& height != 0
    &&& width <= 4096
    &&& height <= 4096
    &&& width * height <= 16777216
}

fn append_str(out: &mut String, s: &str)
    ensures
        final(out)@ == old(out)@ + s@,
{
    let chars = str_to_chars(s);
    let ghost start = out@;
    let mut i: usize = 0;
    while i < chars.len()
        invariant
            i <= chars@.len(),
            chars@ == s@,
            out@ == start + s@.take(i as int),
        decreases chars@.len() - i,
    {
        string_push(out, chars[i]);
        assert(out@ =~= start + s@.take(i + 1));
        i += 1;
    }
    assert(s@.take(i as int) =~= s@);
}

/// Rejects empty images, sides over 4096, and more than 16 Mi pixels.
pub fn validate_dimensions(width: u32, height: u32) -> (r: Result<(), String>)
    ensures
        r is Ok <==> dimensions_ok(width, height),
        r matches Err(m) ==> m@ == dimension_message(width, height),
{
    let w64 = width as u64;
    let h64 = height as u64;
    assert(w64 * h64 <= u64::MAX) by (nonlinear_arith)
        requires
            w64 <= u32::MAX,
            h64 <= u32::MAX,
    ;
    let pixels: u64 = w64 * h64;
    if width == 0 || height == 0 || width > MAX_IMAGE_DIMENSION || height > MAX_IMAGE_DIMENSION
        || pixels > MAX_IMAGE_PIXELS {
        let mut m = String::from_str("image dimensions ");
        let w = u64_to_decimal(width as u64);
        append_str(&mut m, w.as_str());
        append_str(&mut m, "x");
        let h = u64_to_decimal(height as u64);
        append_str(&mut m, h.as_str());
        append_str(&mut m, " exceed the decoder limit");
        return Err(m);
    }
    Ok(())
}

/// `(c * alpha + 127) / 255`: a channel premultiplied by alpha, rounded.
pub open spec fn premultiplied_channel(c: u8, alpha: u8) -> u8 {
    ((c * alpha + 127) / 255) as u8
}

/// Every complete group of four bytes with its color channels premultiplied
/// by its alpha; trailing bytes unchanged.
pub open spec fn spec_premultiply(p: Seq<u8>) -> Seq<u8> {
    Seq::new(
        p.len(),
        |i: int|
            if i < p.len() - p.len() % 4 && i % 4 != 3 {
                premultiplied_channel(p[i], p[i - i % 4 + 3])
            } else {
                p[i]
            },
    )
}

fn premultiply_channel(c: u8, alpha: u8) -> (r: u8)
    ensures
        r == premultiplied_channel(c, alpha),
{
    let c16 = c as u16;
    let a16 = alpha as u16;
    assert(c16 * a16 <= 65025) by (nonlinear_arith)
        requires
            c16 <= 255,
            a16 <= 255,
    ;
    let wide: u16 = c16 * a16;
    let r = (wide + 127) / 255;
    assert(r <= 255);
    r as u8
}

/// Premultiplies RGBA pixels by their alpha channel.
pub fn premultiply(pixels: &mut Vec<u8>)
    ensures
        final(pixels)@ == spec_premultiply(old(pixels)@),
{
    let ghost original = pixels@;
    let n = pixels.len();
    let full = n - n % 4;
    let mut i: usize = 0;
    while i < full
        invariant
            pixels@.len() == original.len(),
            n == original.len(),
            full == n - n % 4,
            i <= full,
            i % 4 == 0,
            forall|k: int|
                0 <= k < i ==> #[trigger] pixels@[k] == spec_premultiply(original)[k],
            forall|k: int| i <= k < n ==> #[trigger] pixels@[k] == original[k],
        decreases full - i,
    {
        let alpha = pixels[i + 3];
        let r = premultiply_channel(pixels[i], alpha);
        let g = premultiply_channel(pixels[i + 1], alpha);
        let b = premultiply_channel(pixels[i + 2], alpha);
        pixels.set(i, r);
        pixels.set(i + 1, g);
        pixels.set(i + 2, b);
        proof {
            assert forall|k: int| i <= k < i + 4 implies #[trigger] pixels@[k] == spec_premultiply(
                original,
            )[k] by {
                assert(k - k % 4 == i);
            }
        }
        i += 4;
    }
    assert(pixels@ =~= spec_premultiply(original));
}

/// The value of an ASCII hexadecimal digit.
pub open spec fn hex_value(b: u8) -> Option<u8> {
    if 0x30 <= b <= 0x39 {
        Some((b - 0x30) as u8)
    } else if 0x61 <= b <= 0x66 {
        Some((b - 0x61 + 10) as u8)
    } else if 0x41 <= b <= 0x46 {
        Some((b - 0x41 + 10) as u8)
    } else {
        None
    }
}

/// `u8::from_str_radix(s, 16)` on a two-byte string: an optional `+` and
/// hexadecimal digits.
pub open spec fn parse_hex_pair(a: u8, b: u8) -> Option<u8> {
    if a == 0x2b {
        hex_value(b)
    } else {
        match (hex_value(a), hex_value(b)) {
            (Some(x), Some(y)) => Some((x * 16 + y) as u8),
            _ => None,
        }
    }
}

fn hex_digit_value(b: u8) -> (r: Option<u8>)
    ensures
        r == hex_value(b),
{
    if 0x30 <= b && b <= 0x39 {
        Some(b - 0x30)
    } else if 0x61 <= b && b <= 0x66 {
        Some(b - 0x61 + 10)
    } else if 0x41 <= b && b <= 0x46 {
        Some(b - 0x41 + 10)
    } else {
        None
    }
}

/// Message of `std::str::from_utf8` rejecting `bytes`.
pub uninterp spec fn utf8_error_message(bytes: Seq<u8>) -> Seq<char>;

/// `std::str::from_utf8`: `None` when `bytes` are valid UTF-8, which is when
/// it succeeds, else the message of its error (named `utf8_error_message`).
#[verifier::external_body]
fn utf8_check(bytes: &[u8]) -> (r: Option<String>)
    ensures
        r is None <==> vstd::utf8::valid_utf8(bytes@),
        r matches Some(m) ==> m@ == utf8_error_message(bytes@),
{
    std::str::from_utf8(bytes).err().map(|error| error.to_string())
}

/// Percent-decoding of a data URL payload; `Ok` holds the bytes, `Err` the
/// message for the first bad escape.
pub open spec fn spec_percent_decode(bytes: Seq<u8>) -> Result<Seq<u8>, Seq<char>>
    decreases bytes.len(),
{
    if bytes.len() == 0 {
        Ok(Seq::empty())
    } else if bytes[0] == 0x25 {
        if bytes.len() < 3 {
            Err("truncated percent escape in data URL"@)
        } else if !vstd::utf8::valid_utf8(bytes.subrange(1, 3)) {
            Err(utf8_error_message(bytes.subrange(1, 3)))
        } else {
            match parse_hex_pair(bytes[1], bytes[2]) {
                None => Err("invalid percent escape in data URL"@),
                Some(v) => match spec_percent_decode(bytes.skip(3)) {
                    Ok(rest) => Ok(seq![v] + rest),
                    Err(e) => Err(e),
                },
            }
        }
    } else {
        match spec_percent_decode(bytes.skip(1)) {
            Ok(rest) => Ok(seq![bytes[0]] + rest),
            Err(e) => Err(e),
        }
    }
}

/// Decodes `%XX` escapes of a data URL payload.
pub fn percent_decode(value: &str) -> (r: Result<Vec<u8>, String>)
    ensures
        match r {
            Ok(v) => spec_percent_decode(vstd::utf8::encode_utf8(value@)) == Ok::<Seq<u8>, Seq<char>>(v@),
            Err(m) => spec_percent_decode(vstd::utf8::encode_utf8(value@)) == Err::<Seq<u8>, Seq<char>>(m@),
        },
{
    let bytes = value.as_bytes();
    let ghost all = bytes@;
    let mut output: Vec<u8> = Vec::new();
    let mut index: usize = 0;
    proof {
        assert(all.skip(0) =~= all);
        match spec_percent_decode(all) {
            Ok(rest) => {
                assert(output@ + rest =~= rest);
            },
            Err(e) => {},
        }
    }
    while index < bytes.len()
        invariant
            all == bytes@,
            all == vstd::utf8::encode_utf8(value@),
            index <= all.len(),
            spec_percent_decode(all) == (match spec_percent_decode(all.skip(index as int)) {
                Ok(rest) => Ok(output@ + rest),
                Err(e) => Err(e),
            }),
        decreases all.len() - index,
    {
        let ghost s = all.skip(index as int);
        if bytes[index] == 0x25 {
            if bytes.len() - index < 3 {
                assert(spec_percent_decode(s) == Err::<Seq<u8>, Seq<char>>(
                    "truncated percent escape in data URL"@,
                ));
                return Err(String::from_str("truncated percent escape in data URL"));
            }
            let pair: [u8; 2] = [bytes[index + 1], bytes[index + 2]];
            assert(pair@ =~= s.subrange(1, 3));
            match utf8_check(&pair) {
                Some(message) => {
                    assert(spec_percent_decode(s) == Err::<Seq<u8>, Seq<char>>(message@));
                    return Err(message);
                },
                None => {},
            }
            let decoded = if bytes[index + 1] == 0x2b {
                hex_digit_value(bytes[index + 2])
            } else {
                match (hex_digit_value(bytes[index + 1]), hex_digit_value(bytes[index + 2])) {
                    (Some(x), Some(y)) => Some(x * 16 + y),
                    _ => None,
                }
            };
            match decoded {
                None => {
                    assert(spec_percent_decode(s) == Err::<Seq<u8>, Seq<char>>(
                        "invalid percent escape in data URL"@,
                    ));
                    return Err(String::from_str("invalid percent escape in data URL"));
                },
                Some(v) => {
                    proof {
                        assert(s.skip(3) =~= all.skip(index + 3));
                        match spec_percent_decode(all.skip(index + 3)) {
                            Ok(rest) => {
                                assert(output@ + (seq![v] + rest) =~= output@.push(v) + rest);
                            },
                            Err(e) => {},
                        }
                    }
                    output.push(v);
                    index += 3;
                },
            }
        } else {
            let b = bytes[index];
            proof {
                assert(s.skip(1) =~= all.skip(index + 1));
                match spec_percent_decode(all.skip(index + 1)) {
                    Ok(rest) => {
                        assert(output@ + (seq![b] + rest) =~= output@.push(b) + rest);
                    },
                    Err(e) => {},
                }
            }
            output.push(b);
            index += 1;
        }
    }
    assert(all.skip(index as int) =~= Seq::<u8>::empty());
    assert(output@ + Seq::<u8>::empty() =~= output@);
    Ok(output)
}

} // verus!

verus! {

/// Result of `base64`'s standard engine decoding `input`: the bytes, or the
/// message of its error.
pub uninterp spec fn base64_standard_decode(input: Seq<u8>) -> Result<Seq<u8>, Seq<char>>;

/// `base64::engine::general_purpose::STANDARD.decode`, with the error's
/// message; its result is named `base64_standard_decode`.
#[verifier::external_body]
fn base64_decode(input: &[u8]) -> (r: Result<Vec<u8>, String>)
    ensures
        match r {
            Ok(v) => base64_standard_decode(input@) == Ok::<Seq<u8>, Seq<char>>(v@),
            Err(m) => base64_standard_decode(input@) == Err::<Seq<u8>, Seq<char>>(m@),
        },
{
    base64::engine::general_purpose::STANDARD.decode(input).map_err(|error| error.to_string())
}

/// The bytes of a base64 payload, or the data URL error for a bad one.
pub fn base64_payload(decoded: Result<Vec<u8>, String>) -> (r: Result<Vec<u8>, String>)
    ensures
        match decoded {
            Ok(v) => r == Ok::<Vec<u8>, String>(v),
            Err(m) => r matches Err(e) && e@ == "invalid base64 data URL: "@ + m@,
        },
{
    match decoded {
        Ok(v) => Ok(v),
        Err(m) => {
            let mut e = String::from_str("invalid base64 data URL: ");
            append_str(&mut e, m.as_str());
            Err(e)
        },
    }
}

/// Whether one of the parameters after the media type is `base64`, ASCII
/// case-insensitively.
pub open spec fn has_base64_param(pieces: Seq<Seq<char>>) -> bool {
    exists|j: int| 1 <= j < pieces.len() && ascii_lower_seq(#[trigger] pieces[j]) == "base64"@
}

/// A data URL split into its media type (`text/plain` when empty), whether it
/// is base64, and its data.
pub open spec fn spec_data_url_parts(source: Seq<char>) -> Result<(Seq<char>, bool, Seq<char>), Seq<char>> {
    if !(source.len() >= 5 && source.take(5) == "data:"@) {
        Err("not a data URL"@)
    } else {
        let payload = source.skip(5);
        match crate::encoding::first_index_of(payload, ',') {
            None => Err("data URL omitted comma separator"@),
            Some(i) => {
                let pieces = split_on(payload.take(i), ';');
                let content_type = if pieces[0].len() == 0 {
                    "text/plain"@
                } else {
                    pieces[0]
                };
                Ok((content_type, has_base64_param(pieces), payload.skip(i + 1)))
            },
        }
    }
}

/// A data URL's media type and decoded bytes.
pub open spec fn spec_decode_data_url(source: Seq<char>) -> Result<(Seq<char>, Seq<u8>), Seq<char>> {
    match spec_data_url_parts(source) {
        Err(e) => Err(e),
        Ok((content_type, base64, data)) => if base64 {
            match base64_standard_decode(
                vstd::utf8::encode_utf8(trim_class(data, TrimClass::Whitespace)),
            ) {
                Ok(bytes) => Ok((content_type, bytes)),
                Err(m) => Err("invalid base64 data URL: "@ + m),
            }
        } else {
            match spec_percent_decode(vstd::utf8::encode_utf8(data)) {
                Ok(bytes) => Ok((content_type, bytes)),
                Err(m) => Err(m),
            }
        },
    }
}

fn starts_with_data(chars: &Vec<char>) -> (r: bool)
    ensures
        r == (chars@.len() >= 5 && chars@.take(5) == "data:"@),
{
    proof {
        reveal_strlit("data:");
    }
    if chars.len() >= 5 && chars[0] == 'd' && chars[1] == 'a' && chars[2] == 't' && chars[3] == 'a'
        && chars[4] == ':' {
        assert(chars@.take(5) =~= "data:"@);
        true
    } else {
        proof {
            if chars@.len() >= 5 && chars@.take(5) == "data:"@ {
                assert(chars@.take(5)[0] == 'd');
                assert(chars@.take(5)[1] == 'a');
                assert(chars@.take(5)[2] == 't');
                assert(chars@.take(5)[3] == 'a');
                assert(chars@.take(5)[4] == ':');
            }
        }
        false
    }
}

/// Whether `piece` is `base64`, ASCII case-insensitively.
fn is_base64_word(piece: &Vec<char>) -> (r: bool)
    ensures
        r == (ascii_lower_seq(piece@) == "base64"@),
{
    let lowered = crate::text_util::chars_to_ascii_lowercase(piece.as_slice());
    let expected: Vec<char> = vec!['b', 'a', 's', 'e', '6', '4'];
    proof {
        reveal_strlit("base64");
    }
    assert(expected@ =~= "base64"@);
    crate::text_util::chars_equal(lowered.as_slice(), expected.as_slice())
}

/// Splits a `data:` URL and decodes its payload.
pub fn decode_data_url(source: &str) -> (r: Result<(String, Vec<u8>), String>)
    ensures
        match r {
            Ok((t, b)) => spec_decode_data_url(source@) == Ok::<(Seq<char>, Seq<u8>), Seq<char>>(
                (t@, b@),
            ),
            Err(m) => spec_decode_data_url(source@) == Err::<(Seq<char>, Seq<u8>), Seq<char>>(m@),
        },
{
    let chars = str_to_chars(source);
    if !starts_with_data(&chars) {
        return Err(String::from_str("not a data URL"));
    }
    let n = chars.len();
    let payload = crate::encoding::slice_to_vec(chars.as_slice(), 5, n);
    assert(payload@ =~= source@.skip(5));
    let comma = match crate::encoding::find_char(payload.as_slice(), ',') {
        None => {
            return Err(String::from_str("data URL omitted comma separator"));
        },
        Some(i) => i,
    };
    let metadata = crate::encoding::slice_to_vec(payload.as_slice(), 0, comma);
    let pn = payload.len();
    let data = crate::encoding::slice_to_vec(payload.as_slice(), comma + 1, pn);
    assert(metadata@ =~= payload@.take(comma as int));
    assert(data@ =~= payload@.skip(comma + 1));
    let pieces = crate::text_util::split_chars(metadata.as_slice(), ';');
    let ghost pv = split_on(metadata@, ';');
    proof {
        crate::text_util::lemma_split_on_len(metadata@, ';');
    }
    assert(pieces@[0]@ == pv[0]);
    let content_type = if pieces[0].len() == 0 {
        String::from_str("text/plain")
    } else {
        crate::text_util::chars_to_string(pieces[0].as_slice())
    };
    let mut base64 = false;
    let mut j: usize = 1;
    while j < pieces.len()
        invariant
            1 <= j <= pieces@.len(),
            pv == Seq::new(pieces@.len(), |k: int| pieces@[k]@),
            base64 <==> exists|k: int| 1 <= k < j && ascii_lower_seq(#[trigger] pv[k]) == "base64"@,
        decreases pieces@.len() - j,
    {
        assert(pv[j as int] == pieces@[j as int]@);
        if is_base64_word(&pieces[j]) {
            base64 = true;
        }
        j += 1;
    }
    let data_string = crate::text_util::chars_to_string(data.as_slice());
    if base64 {
        let trimmed = crate::text_util::trim_chars(data.as_slice(), TrimClass::Whitespace);
        let trimmed_string = crate::text_util::chars_to_string(trimmed.as_slice());
        let decoded = base64_decode(trimmed_string.as_str().as_bytes());
        match base64_payload(decoded) {
            Ok(bytes) => Ok((content_type, bytes)),
            Err(m) => Err(m),
        }
    } else {
        match percent_decode(data_string.as_str()) {
            Ok(bytes) => Ok((content_type, bytes)),
            Err(m) => Err(m),
        }
    }
}

/// Whether `bytes[p..p + 4]` is `<svg`, ASCII case-insensitively.
pub open spec fn svg_tag_at(bytes: Seq<u8>, p: int) -> bool {
    &&& 0 <= p
    &&& p + 4 <= bytes.len()
    &&& bytes[p] == 0x3c
    &&& ascii_lower_byte(bytes[p + 1]) == 0x73
    &&& ascii_lower_byte(bytes[p + 2]) == 0x76
    &&& ascii_lower_byte(bytes[p + 3]) == 0x67
}

/// An image is SVG when its media type (before any `;`, around whitespace)
/// is `image/svg+xml` ASCII case-insensitively, or `<svg` starts within its
/// first 256 bytes.
pub open spec fn spec_is_svg(content_type: Option<Seq<char>>, bytes: Seq<u8>) -> bool {
    ||| (content_type matches Some(ct) && ascii_lower_seq(
        trim_class(split_on(ct, ';')[0], TrimClass::Whitespace),
    ) == "image/svg+xml"@)
    ||| exists|p: int| 0 <= p < 256 && #[trigger] svg_tag_at(bytes, p)
}

/// Whether an image is SVG by media type or content.
pub fn is_svg_image(content_type: Option<&str>, bytes: &[u8]) -> (r: bool)
    ensures
        r == spec_is_svg(crate::encoding::opt_str_view(content_type), bytes@),
{
    let by_type = match content_type {
        Some(ct) => {
            let chars = str_to_chars(ct);
            let pieces = crate::text_util::split_chars(chars.as_slice(), ';');
            proof {
                crate::text_util::lemma_split_on_len(ct@, ';');
            }
            let first = crate::text_util::trim_chars(pieces[0].as_slice(), TrimClass::Whitespace);
            let lowered = crate::text_util::chars_to_ascii_lowercase(first.as_slice());
            let expected: Vec<char> = vec![
                'i',
                'm',
                'a',
                'g',
                'e',
                '/',
                's',
                'v',
                'g',
                '+',
                'x',
                'm',
                'l',
            ];
            proof {
                reveal_strlit("image/svg+xml");
            }
            assert(expected@ =~= "image/svg+xml"@);
            crate::text_util::chars_equal(lowered.as_slice(), expected.as_slice())
        },
        None => false,
    };
    if by_type {
        return true;
    }
    let mut p: usize = 0;
    while p < 256 && p < bytes.len() && bytes.len() - p >= 4
        invariant
            forall|q: int| 0 <= q < p ==> !#[trigger] svg_tag_at(bytes@, q),
        decreases 256 - p,
    {
        if bytes[p] == 0x3c && crate::text_util::byte_to_ascii_lowercase(bytes[p + 1]) == 0x73
            && crate::text_util::byte_to_ascii_lowercase(bytes[p + 2]) == 0x76
            && crate::text_util::byte_to_ascii_lowercase(bytes[p + 3]) == 0x67 {
            assert(svg_tag_at(bytes@, p as int));
            return true;
        }
        p += 1;
    }
    assert forall|q: int| 0 <= q < 256 implies !#[trigger] svg_tag_at(bytes@, q) by {
        if q >= p {
            assert(q + 4 > bytes@.len() || p >= 256);
        }
    }
    false
}

} // verus!

verus! {

#[verifier::external_type_specification]
#[verifier::external_body]
pub struct ExSvgTree(resvg::usvg::Tree);

/// `image::guess_format` on `bytes`: a supported raster kind, the debug name
/// of another format, or the message of its error.
pub uninterp spec fn guessed_image_format(bytes: Seq<u8>) -> Result<Result<ImageKind, Seq<char>>, Seq<char>>;

/// `image::guess_format`, mapping PNG, JPEG and GIF to their kinds and other
/// formats to their debug names; its result is named `guessed_image_format`.
#[verifier::external_body]
fn guess_image_format(bytes: &[u8]) -> (r: Result<Result<ImageKind, String>, String>)
    ensures
        match r {
            Ok(Ok(k)) => guessed_image_format(bytes@) == Ok::<Result<ImageKind, Seq<char>>, Seq<char>>(
                Ok(k),
            ) && k != ImageKind::Svg,
            Ok(Err(n)) => guessed_image_format(bytes@) == Ok::<
                Result<ImageKind, Seq<char>>,
                Seq<char>,
            >(Err(n@)),
            Err(m) => guessed_image_format(bytes@) == Err::<Result<ImageKind, Seq<char>>, Seq<char>>(
                m@,
            ),
        },
{
    match image::guess_format(bytes) {
        Ok(image::ImageFormat::Png) => Ok(Ok(ImageKind::Png)),
        Ok(image::ImageFormat::Jpeg) => Ok(Ok(ImageKind::Jpeg)),
        Ok(image::ImageFormat::Gif) => Ok(Ok(ImageKind::Gif)),
        Ok(other) => Ok(Err(format!("{other:?}"))),
        Err(error) => Err(error.to_string()),
    }
}

/// `image::load_from_memory_with_format` on `bytes` as `kind`, converted to
/// RGBA8: width, height and pixels, or the message of its error.
pub uninterp spec fn decoded_raster(bytes: Seq<u8>, kind: ImageKind) -> Result<(u32, u32, Seq<u8>), Seq<char>>;

/// `image::load_from_memory_with_format` followed by `into_rgba8`; its result
/// is named `decoded_raster`.
#[verifier::external_body]
fn decode_raster(bytes: &[u8], kind: ImageKind) -> (r: Result<(u32, u32, Vec<u8>), String>)
    requires
        kind != ImageKind::Svg,
    ensures
        match r {
            Ok((w, h, p)) => decoded_raster(bytes@, kind) == Ok::<(u32, u32, Seq<u8>), Seq<char>>(
                (w, h, p@),
            ),
            Err(m) => decoded_raster(bytes@, kind) == Err::<(u32, u32, Seq<u8>), Seq<char>>(m@),
        },
{
    let format = match kind {
        ImageKind::Png => image::ImageFormat::Png,
        ImageKind::Jpeg => image::ImageFormat::Jpeg,
        ImageKind::Gif => image::ImageFormat::Gif,
        ImageKind::Svg => image::ImageFormat::Png,
    };
    image::load_from_memory_with_format(bytes, format).map(
        |image| (image.width(), image.height(), image.into_rgba8().into_raw()),
    ).map_err(|error| error.to_string())
}

/// `resvg::usvg::Tree::from_data` with default options: the integer size of
/// the parsed tree, or the message of its error.
pub uninterp spec fn parsed_svg_size(bytes: Seq<u8>) -> Result<(u32, u32), Seq<char>>;

/// `resvg::usvg::Tree::from_data` with default options, with the tree's size
/// rounded to integers; the size and error are named `parsed_svg_size`.
#[verifier::external_body]
fn parse_svg(bytes: &[u8]) -> (r: Result<(resvg::usvg::Tree, u32, u32), String>)
    ensures
        match r {
            Ok((_, w, h)) => parsed_svg_size(bytes@) == Ok::<(u32, u32), Seq<char>>((w, h)),
            Err(m) => parsed_svg_size(bytes@) == Err::<(u32, u32), Seq<char>>(m@),
        },
{
    let options = resvg::usvg::Options::default();
    resvg::usvg::Tree::from_data(bytes, &options).map(
        |tree| {
            let size = tree.size().to_int_size();
            let (width, height) = (size.width(), size.height());
            (tree, width, height)
        },
    ).map_err(|error| error.to_string())
}

/// `resvg::render` of `tree` into a new `resvg::tiny_skia::Pixmap` of the
/// given size: its premultiplied RGBA pixels, four bytes per pixel, or `None`
/// when `Pixmap::new` refuses the size, which it does only for a zero side
/// or a row or length that overflows, never for sides of 1 to 16384. What
/// the pixels hold is not stated: it depends on the tree, which is opaque
/// here, and on the files its image references name.
#[verifier::external_body]
fn render_svg(tree: &resvg::usvg::Tree, width: u32, height: u32) -> (r: Option<Vec<u8>>)
    ensures
        r matches Some(p) ==> p@.len() == 4 * width * height,
        1 <= width <= 16384 && 1 <= height <= 16384 ==> r is Some,
{
    let mut pixmap = resvg::tiny_skia::Pixmap::new(width, height)?;
    resvg::render(tree, resvg::tiny_skia::Transform::identity(), &mut pixmap.as_mut());
    Some(pixmap.data().to_vec())
}

/// The raster kind from a format guess, or the decode error.
pub fn raster_kind(guess: Result<Result<ImageKind, String>, String>) -> (r: Result<ImageKind, String>)
    ensures
        match guess {
            Err(m) => r matches Err(e) && e@ == m@,
            Ok(Err(n)) => r matches Err(e) && e@ == "unsupported raster image format "@ + n@,
            Ok(Ok(k)) => r == Ok::<ImageKind, String>(k),
        },
{
    match guess {
        Err(m) => Err(m),
        Ok(Err(n)) => {
            let mut e = String::from_str("unsupported raster image format ");
            append_str(&mut e, n.as_str());
            Err(e)
        },
        Ok(Ok(k)) => Ok(k),
    }
}

/// An image resource from decoded RGBA8 pixels, premultiplied, after the
/// dimension check.
pub fn decoded_dynamic(source_url: &str, kind: ImageKind, width: u32, height: u32, pixels: Vec<u8>) -> (r: Result<ImageResource, String>)
    ensures
        r is Ok <==> dimensions_ok(width, height),
        r matches Err(m) ==> m@ == dimension_message(width, height),
        r matches Ok(res) ==> resource_view(res) == (source_url@, width, height, kind, spec_premultiply(pixels@)),
{
    validate_dimensions(width, height)?;
    let mut pixels = pixels;
    premultiply(&mut pixels);
    let url = str_to_chars(source_url);
    Ok(ImageResource {
        source_url: crate::text_util::chars_to_string(url.as_slice()),
        width,
        height,
        kind,
        pixels,
    })
}

/// Parses and rasterizes an SVG image.
pub fn decode_svg(source_url: &str, bytes: &[u8]) -> (r: Result<ImageResource, String>)
    ensures
        match parsed_svg_size(bytes@) {
            Err(m) => r matches Err(e) && e@ == "SVG parse failed: "@ + m,
            Ok((w, h)) => if !dimensions_ok(w, h) {
                r matches Err(e) && e@ == dimension_message(w, h)
            } else {
                match r {
                    Ok(res) => res.source_url@ == source_url@ && res.width == w && res.height == h
                        && res.kind == ImageKind::Svg && res.pixels@.len() == 4 * w * h,
                    Err(_) => false,
                }
            },
        },
{
    match parse_svg(bytes) {
        Err(m) => {
            let mut e = String::from_str("SVG parse failed: ");
            append_str(&mut e, m.as_str());
            Err(e)
        },
        Ok((tree, width, height)) => {
            validate_dimensions(width, height)?;
            match render_svg(&tree, width, height) {
                None => Err(String::from_str("SVG raster allocation failed")),
                Some(pixels) => {
                    let url = str_to_chars(source_url);
                    Ok(ImageResource {
                        source_url: crate::text_util::chars_to_string(url.as_slice()),
                        width,
                        height,
                        kind: ImageKind::Svg,
                        pixels,
                    })
                },
            }
        },
    }
}

/// Decodes an image: SVG by media type or content, else PNG, JPEG or GIF by
/// its magic bytes.
pub fn decode_image(source_url: &str, content_type: Option<&str>, bytes: &[u8]) -> (r: Result<ImageResource, String>)
    ensures
        !spec_is_svg(crate::encoding::opt_str_view(content_type), bytes@) ==> match guessed_image_format(bytes@) {
            Err(m) => r matches Err(e) && e@ == m,
            Ok(Err(n)) => r matches Err(e) && e@ == "unsupported raster image format "@ + n,
            Ok(Ok(k)) => match decoded_raster(bytes@, k) {
                Err(m) => r matches Err(e) && e@ == "image decode failed: "@ + m,
                Ok((w, h, p)) => if dimensions_ok(w, h) {
                    r matches Ok(res) && resource_view(res) == (source_url@, w, h, k, spec_premultiply(p))
                } else {
                    r matches Err(e) && e@ == dimension_message(w, h)
                },
            },
        },
        spec_is_svg(crate::encoding::opt_str_view(content_type), bytes@) ==> match parsed_svg_size(bytes@) {
            Err(m) => r matches Err(e) && e@ == "SVG parse failed: "@ + m,
            Ok((w, h)) => if !dimensions_ok(w, h) {
                r matches Err(e) && e@ == dimension_message(w, h)
            } else {
                match r {
                    Ok(res) => res.source_url@ == source_url@ && res.width == w && res.height == h
                        && res.kind == ImageKind::Svg && res.pixels@.len() == 4 * w * h,
                    Err(_) => false,
                }
            },
        },
{
    if is_svg_image(content_type, bytes) {
        return decode_svg(source_url, bytes);
    }
    let kind = raster_kind(guess_image_format(bytes))?;
    match decode_raster(bytes, kind) {
        Err(m) => {
            let mut e = String::from_str("image decode failed: ");
            append_str(&mut e, m.as_str());
            Err(e)
        },
        Ok((width, height, pixels)) => decoded_dynamic(source_url, kind, width, height, pixels),
    }
}

} // verus!
