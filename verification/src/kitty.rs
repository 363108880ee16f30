use std::sync::Arc;

use vstd::prelude::*;

use crate::geometry::Rect;
use crate::image::{share, ImageId, ImagePlacement, PixelRect, RgbaImage, MAX_IMAGE_BYTES};
use crate::terminal::TerminalViewport;
use vstd::arithmetic::div_mod::{lemma_div_is_ordered, lemma_div_multiples_vanish_fancy};
use vstd::arithmetic::mul::{lemma_mul_inequality, lemma_mul_upper_bound};

verus! {

/// Largest source dimension uploaded as a Kitty image.
pub const MAX_IMAGE_DIMENSION: u32 = 10000;

/// Byte budget of the encoded-payload cache.
pub const MAX_ENCODED_CACHE_BYTES: usize = 67108864;

/// Entry budget of the encoded-payload cache.
pub const MAX_ENCODED_CACHE_ENTRIES: usize = 256;

/// Payload budget of one prepared update.
pub const MAX_PREPARED_IMAGE_BYTES: usize = 67108864;

/// Raw payloads shorter than this are never compressed.
pub const MIN_COMPRESSION_BYTES: usize = 1024;

/// Kitty's base64 payload limit per command.
pub const MAX_CHUNK_BYTES: usize = 4096;

/// Transfer sizes are rounded up to multiples of this many pixels.
pub const TRANSFER_BUCKET_PIXELS: u32 = 64;

/// Pixel dimensions in which an image is transferred.
#[derive(Clone, Copy, Debug, PartialEq, Eq, Structural, Hash)]
pub struct TransferSize {
    pub width: u32,
    pub height: u32,
}

/// Identity of one encoding: an image at one transfer size.
#[derive(Clone, Copy, Debug, PartialEq, Eq, Structural, Hash)]
pub struct EncodingKey {
    pub image: ImageId,
    pub size: TransferSize,
}

/// An image payload ready for a Kitty direct transfer.
#[derive(Debug)]
pub struct EncodedImage {
    /// Kitty pixel format: 24 for RGB, 32 for RGBA.
    pub format: u8,
    /// Whether the payload is zlib-compressed.
    pub compressed: bool,
    /// Transferred pixel dimensions.
    pub size: TransferSize,
    /// Base64 payload bytes.
    pub payload: Vec<u8>,
}

/// Failure to encode an image payload.
#[derive(Clone, Copy, Debug, PartialEq, Eq, Structural)]
pub struct EncodeFailure;

// ---------------------------------------------------------------------------
// Payload encoding.
// ---------------------------------------------------------------------------

/// Standard base64 alphabet digit of a six-bit value.
pub open spec fn b64_digit(v: int) -> u8 {
    if v < 26 {
        (65 + v) as u8
    } else if v < 52 {
        (97 + v - 26) as u8
    } else if v < 62 {
        (48 + v - 52) as u8
    } else if v == 62 {
        43
    } else {
        47
    }
}

/// Padded standard base64 (RFC 4648, alphabet `A-Za-z0-9+/`, `=` padding).
pub open spec fn base64_spec(s: Seq<u8>) -> Seq<u8>
    decreases s.len(),
{
    if s.len() == 0 {
        seq![]
    } else {
        let a = s[0] as int;
        let b = if s.len() > 1 { s[1] as int } else { 0 };
        let c = if s.len() > 2 { s[2] as int } else { 0 };
        let d0 = b64_digit(a / 4);
        let d1 = b64_digit((a % 4) * 16 + b / 16);
        let d2 = if s.len() > 1 { b64_digit((b % 16) * 4 + c / 64) } else { 61u8 };
        let d3 = if s.len() > 2 { b64_digit(c % 64) } else { 61u8 };
        if s.len() <= 3 {
            seq![d0, d1, d2, d3]
        } else {
            seq![d0, d1, d2, d3] + base64_spec(s.subrange(3, s.len() as int))
        }
    }
}

/// Base64 output has four characters per started group of three bytes.
pub proof fn lemma_base64_len(s: Seq<u8>)
    ensures
        base64_spec(s).len() == 4 * ((s.len() + 2) / 3),
    decreases s.len(),
{
    if s.len() >= 3 {
        lemma_base64_len(s.subrange(3, s.len() as int));
    }
}

/// Calls `base64::engine::general_purpose::STANDARD.encode`, the padded
/// standard alphabet of RFC 4648, and returns the encoded ASCII bytes.
#[verifier::external_body]
fn base64_encode(bytes: &[u8]) -> (r: Vec<u8>)
    ensures
        r@ == base64_spec(bytes@),
{
    base64::Engine::encode(&base64::engine::general_purpose::STANDARD, bytes).into_bytes()
}

/// Outcome of `flate2`'s zlib encoder at `Compression::fast()` writing the
/// given input into a `Vec`: the compressed bytes, or `None` on an encoder
/// error.
pub uninterp spec fn zlib_outcome(input: Seq<u8>) -> Option<Seq<u8>>;

/// Compresses with `flate2::write::ZlibEncoder` at `Compression::fast()`,
/// writing into a `Vec`. An encoder error is returned as `None`.
#[verifier::external_body]
fn zlib_compress(bytes: &[u8]) -> (r: Option<Vec<u8>>)
    ensures
        match r {
            Some(v) => zlib_outcome(bytes@) == Some(v@),
            None => zlib_outcome(bytes@) is None,
        },
{
    let mut encoder = flate2::write::ZlibEncoder::new(Vec::new(), flate2::Compression::fast());
    std::io::Write::write_all(&mut encoder, bytes).ok()?;
    encoder.finish().ok()
}

/// Whether every complete RGBA pixel is fully opaque.
pub open spec fn is_opaque(rgba: Seq<u8>) -> bool {
    forall|p: int| 0 <= p < rgba.len() / 4 ==> #[trigger] rgba[4 * p + 3] == 255
}

/// The RGB channels of every complete RGBA pixel, in order.
pub open spec fn rgb_channels(rgba: Seq<u8>) -> Seq<u8> {
    Seq::new((rgba.len() / 4 * 3) as nat, |i: int| rgba[(i / 3) * 4 + i % 3])
}

/// Uncompressed payload bytes: RGB for opaque images, RGBA otherwise.
pub open spec fn raw_payload(rgba: Seq<u8>) -> Seq<u8> {
    if is_opaque(rgba) {
        rgb_channels(rgba)
    } else {
        rgba
    }
}

/// Whether compression is used: for raw payloads of at least
/// `MIN_COMPRESSION_BYTES` whose compressed form is strictly shorter.
pub open spec fn uses_compression(rgba: Seq<u8>) -> bool {
    raw_payload(rgba).len() >= MIN_COMPRESSION_BYTES && (zlib_outcome(raw_payload(rgba)) matches Some(
        c,
    ) && c.len() < raw_payload(rgba).len())
}

/// Whether encoding RGBA pixels fails: their raw payload is long enough to
/// be compressed and the zlib encoder reports an error.
pub open spec fn compression_fails(rgba: Seq<u8>) -> bool {
    raw_payload(rgba).len() >= MIN_COMPRESSION_BYTES && zlib_outcome(raw_payload(rgba)) is None
}

/// Payload bytes that encoding RGBA pixels produces.
pub open spec fn payload_spec(rgba: Seq<u8>) -> Seq<u8> {
    if uses_compression(rgba) {
        base64_spec(zlib_outcome(raw_payload(rgba))->0)
    } else {
        base64_spec(raw_payload(rgba))
    }
}

/// Whether `e` is the encoding of RGBA pixels at transfer size `size`.
pub open spec fn encodes(e: EncodedImage, rgba: Seq<u8>, size: TransferSize) -> bool {
    &&& e.format == (if is_opaque(rgba) { 24u8 } else { 32u8 })
    &&& e.compressed == uses_compression(rgba)
    &&& e.size == size
    &&& e.payload@ == payload_spec(rgba)
}

/// Copies a byte slice into a new vector.
pub fn copy_bytes(s: &[u8]) -> (r: Vec<u8>)
    ensures
        r@ == s@,
{
    let mut out: Vec<u8> = Vec::new();
    let mut i: usize = 0;
    while i < s.len()
        invariant
            i <= s@.len(),
            out@ == s@.subrange(0, i as int),
        decreases s@.len() - i,
    {
        out.push(s[i]);
        i = i + 1;
        assert(out@ =~= s@.subrange(0, i as int));
    }
    assert(out@ =~= s@);
    out
}

/// Collects the RGB channels of complete RGBA pixels.
fn rgb_of(rgba: &[u8]) -> (r: Vec<u8>)
    ensures
        r@ == rgb_channels(rgba@),
{
    let n = rgba.len();
    let pixels = n / 4;
    let mut rgb: Vec<u8> = Vec::new();
    let mut p: usize = 0;
    while p < pixels
        invariant
            n == rgba@.len(),
            pixels == rgba@.len() / 4,
            p <= pixels,
            rgb@.len() == 3 * p,
            forall|i: int| 0 <= i < 3 * p ==> #[trigger] rgb@[i] == rgba@[(i / 3) * 4 + i % 3],
        decreases pixels - p,
    {
        assert(4 * p + 3 < rgba@.len());
        let base = 4 * p;
        rgb.push(rgba[base]);
        rgb.push(rgba[base + 1]);
        rgb.push(rgba[base + 2]);
        p = p + 1;
        assert forall|i: int| 0 <= i < 3 * p implies #[trigger] rgb@[i] == rgba@[(i / 3) * 4 + i
            % 3] by {
            if i >= 3 * (p - 1) {
                assert(i / 3 == p - 1);
            }
        }
    }
    assert(rgb@ =~= rgb_channels(rgba@));
    rgb
}

/// Returns whether every complete RGBA pixel is fully opaque.
fn all_opaque(rgba: &[u8]) -> (r: bool)
    ensures
        r == is_opaque(rgba@),
{
    let n = rgba.len();
    let pixels = n / 4;
    let mut p: usize = 0;
    while p < pixels
        invariant
            n == rgba@.len(),
            pixels == rgba@.len() / 4,
            p <= pixels,
            forall|q: int| 0 <= q < p ==> #[trigger] rgba@[4 * q + 3] == 255,
        decreases pixels - p,
    {
        assert(4 * p + 3 < rgba@.len());
        if rgba[4 * p + 3] != 255 {
            return false;
        }
        p = p + 1;
    }
    true
}

/// Encodes RGBA pixels already at `size` as a Kitty payload: opaque images
/// drop alpha, and raw payloads of at least `MIN_COMPRESSION_BYTES` are
/// zlib-compressed when that shortens them.
pub fn encode_rgba(rgba: &[u8], size: TransferSize) -> (r: Result<EncodedImage, EncodeFailure>)
    ensures
        r matches Ok(e) ==> encodes(e, rgba@, size),
        r is Err <==> compression_fails(rgba@),
{
    let opaque = all_opaque(rgba);
    let raw: Vec<u8> = if opaque {
        rgb_of(rgba)
    } else {
        copy_bytes(rgba)
    };
    let mut compressed = false;
    let mut payload: Vec<u8> = Vec::new();
    if raw.len() >= MIN_COMPRESSION_BYTES {
        match zlib_compress(raw.as_slice()) {
            Some(bytes) => {
                if bytes.len() < raw.len() {
                    compressed = true;
                    payload = base64_encode(bytes.as_slice());
                } else {
                    payload = base64_encode(raw.as_slice());
                }
            },
            None => {
                return Err(EncodeFailure);
            },
        }
    } else {
        payload = base64_encode(raw.as_slice());
    }
    Ok(EncodedImage { format: if opaque { 24 } else { 32 }, compressed, size, payload })
}

/// Whether `e` encodes `image` at `size`: from its own pixels when `size`
/// is its size, otherwise from pixels that `resize` returned for it.
pub open spec fn encodes_image<F: Fn(&RgbaImage, TransferSize) -> Vec<u8>>(
    e: EncodedImage,
    image: RgbaImage,
    size: TransferSize,
    resize: F,
) -> bool {
    if size.width == image.width_spec() && size.height == image.height_spec() {
        encodes(e, image.pixels_spec(), size)
    } else {
        exists|rgba: Vec<u8>| call_ensures(resize, (&image, size), rgba) && encodes(e, rgba@, size)
    }
}

/// Whether encoding `image` at `size` can fail: compressing its own pixels
/// fails when `size` is its size, otherwise compressing some pixel buffer
/// that `resize` can return for it fails.
pub open spec fn encoding_fails<F: Fn(&RgbaImage, TransferSize) -> Vec<u8>>(
    image: RgbaImage,
    size: TransferSize,
    resize: F,
) -> bool {
    if size.width == image.width_spec() && size.height == image.height_spec() {
        compression_fails(image.pixels_spec())
    } else {
        exists|rgba: Vec<u8>|
            #[trigger] call_ensures(resize, (&image, size), rgba) && compression_fails(rgba@)
    }
}

/// Encodes `image` at `size`, resampling through `resize` when `size`
/// differs from the image's own size.
pub fn encode_pixels<F: Fn(&RgbaImage, TransferSize) -> Vec<u8>>(
    image: &RgbaImage,
    size: TransferSize,
    resize: &F,
) -> (r: Result<EncodedImage, EncodeFailure>)
    requires
        forall|i: &RgbaImage, t: TransferSize| call_requires(*resize, (i, t)),
    ensures
        r matches Ok(e) ==> encodes_image(e, *image, size, *resize),
        r is Err ==> encoding_fails(*image, size, *resize),
        size.width == image.width_spec() && size.height == image.height_spec() ==> (r is Err
            <==> compression_fails(image.pixels_spec())),
{
    if size.width == image.width() && size.height == image.height() {
        encode_rgba(image.pixels(), size)
    } else {
        let rgba = resize(image, size);
        encode_rgba(rgba.as_slice(), size)
    }
}

// ---------------------------------------------------------------------------
// Least-recently-used cache of encoded payloads.
// ---------------------------------------------------------------------------

/// One cached payload with the logical time of its last use.
#[derive(Debug)]
pub struct CacheEntry {
    pub key: EncodingKey,
    pub encoded: Arc<EncodedImage>,
    pub last_used: u64,
}

/// Payload bytes held by an entry.
pub open spec fn entry_len(e: CacheEntry) -> int {
    e.encoded.payload@.len() as int
}

/// Payload bytes held by a sequence of entries.
pub open spec fn total_bytes(s: Seq<CacheEntry>) -> int
    decreases s.len(),
{
    if s.len() == 0 {
        0
    } else {
        total_bytes(s.drop_last()) + entry_len(s.last())
    }
}

/// Whether an entry with `key` is present.
pub open spec fn has_key(s: Seq<CacheEntry>, key: EncodingKey) -> bool {
    exists|i: int| 0 <= i < s.len() && #[trigger] s[i].key == key
}

/// Total bytes are never negative.
pub proof fn lemma_total_nonnegative(s: Seq<CacheEntry>)
    ensures
        total_bytes(s) >= 0,
    decreases s.len(),
{
    if s.len() > 0 {
        lemma_total_nonnegative(s.drop_last());
    }
}

/// Removing an entry removes exactly its bytes from the total.
pub proof fn lemma_total_remove(s: Seq<CacheEntry>, i: int)
    requires
        0 <= i < s.len(),
    ensures
        total_bytes(s.remove(i)) == total_bytes(s) - entry_len(s[i]),
    decreases s.len(),
{
    if i == s.len() - 1 {
        assert(s.remove(i) =~= s.drop_last());
    } else {
        lemma_total_remove(s.drop_last(), i);
        assert(s.remove(i).drop_last() =~= s.drop_last().remove(i));
        assert(s.remove(i).last() == s.last());
    }
}

/// Appending an entry adds exactly its bytes to the total.
pub proof fn lemma_total_push(s: Seq<CacheEntry>, e: CacheEntry)
    ensures
        total_bytes(s.push(e)) == total_bytes(s) + entry_len(e),
{
    assert(s.push(e).drop_last() =~= s);
}

/// Replacing an entry by one of the same length keeps the total.
pub proof fn lemma_total_update(s: Seq<CacheEntry>, i: int, e: CacheEntry)
    requires
        0 <= i < s.len(),
        entry_len(e) == entry_len(s[i]),
    ensures
        total_bytes(s.update(i, e)) == total_bytes(s),
    decreases s.len(),
{
    if i == s.len() - 1 {
        assert(s.update(i, e).drop_last() =~= s.drop_last());
    } else {
        lemma_total_update(s.drop_last(), i, e);
        assert(s.update(i, e).drop_last() =~= s.drop_last().update(i, e));
    }
}

/// A bounded least-recently-used cache of encoded payloads, keyed by image
/// identity and transfer size.
#[derive(Debug)]
pub struct EncodingCache {
    entries: Vec<CacheEntry>,
    bytes: usize,
    limit: usize,
    entry_limit: usize,
    clock: u64,
}

impl EncodingCache {
    /// Cached entries, in insertion order.
    pub closed spec fn entries_spec(&self) -> Seq<CacheEntry> {
        self.entries@
    }

    /// Byte budget.
    pub closed spec fn limit_spec(&self) -> usize {
        self.limit
    }

    /// Accounted payload bytes.
    pub closed spec fn bytes_spec(&self) -> usize {
        self.bytes
    }

    /// Entry budget.
    pub closed spec fn entry_limit_spec(&self) -> usize {
        self.entry_limit
    }

    /// Logical time of the most recent admission.
    pub closed spec fn clock_spec(&self) -> u64 {
        self.clock
    }

    /// The cache keeps exact byte accounting within both budgets, one entry
    /// per key, and no use time later than its clock.
    pub open spec fn wf(&self) -> bool {
        &&& self.entry_limit_spec() == MAX_ENCODED_CACHE_ENTRIES
        &&& self.entries_spec().len() <= self.entry_limit_spec()
        &&& self.bytes_spec() == total_bytes(self.entries_spec())
        &&& self.bytes_spec() <= self.limit_spec()
        &&& forall|i: int, j: int|
            0 <= i < j < self.entries_spec().len() ==> self.entries_spec()[i].key
                != self.entries_spec()[j].key
        &&& forall|i: int|
            0 <= i < self.entries_spec().len() ==> #[trigger] self.entries_spec()[i].last_used
                <= self.clock_spec()
    }

    /// Creates an empty cache with a byte budget.
    pub fn new(limit: usize) -> (r: Self)
        ensures
            r.wf(),
            r.entries_spec().len() == 0,
            r.limit_spec() == limit,
            r.clock_spec() == 0,
    {
        EncodingCache {
            entries: Vec::new(),
            bytes: 0,
            limit,
            entry_limit: MAX_ENCODED_CACHE_ENTRIES,
            clock: 0,
        }
    }

    /// Returns the number of cached payloads.
    pub fn len(&self) -> (r: usize)
        ensures
            r == self.entries_spec().len(),
    {
        self.entries.len()
    }

    /// Returns the accounted payload bytes.
    pub fn bytes(&self) -> (r: usize)
        ensures
            r == self.bytes_spec(),
    {
        self.bytes
    }

    /// Returns the byte budget.
    pub fn limit(&self) -> (r: usize)
        ensures
            r == self.limit_spec(),
    {
        self.limit
    }

    /// Returns the cached payload for `image` at `size`, or encodes one
    /// without recording it.
    pub fn candidate<F: Fn(&RgbaImage, TransferSize) -> Vec<u8>>(
        &self,
        image: &RgbaImage,
        size: TransferSize,
        resize: &F,
    ) -> (r: Result<Arc<EncodedImage>, EncodeFailure>)
        requires
            self.wf(),
            forall|i: &RgbaImage, t: TransferSize| call_requires(*resize, (i, t)),
        ensures
            ({
                let key = EncodingKey { image: image.id_spec(), size };
                &&& forall|i: int|
                    0 <= i < self.entries_spec().len() && self.entries_spec()[i].key == key
                        ==> r == Ok::<Arc<EncodedImage>, EncodeFailure>(
                        self.entries_spec()[i].encoded,
                    )
                &&& !has_key(self.entries_spec(), key) ==> (r matches Ok(e) ==> encodes_image(
                    *e,
                    *image,
                    size,
                    *resize,
                ))
                &&& r is Err ==> !has_key(self.entries_spec(), key) && encoding_fails(
                    *image,
                    size,
                    *resize,
                )
            }),
    {
        let key = EncodingKey { image: image.id(), size };
        match self.find(key) {
            Some(i) => {
                assert forall|j: int|
                    0 <= j < self.entries_spec().len() && self.entries_spec()[j].key
                        == key implies j == i by {
                    if j < i {
                        assert(self.entries_spec()[j].key != self.entries_spec()[i as int].key);
                    } else if j > i {
                        assert(self.entries_spec()[i as int].key != self.entries_spec()[j].key);
                    }
                }
                Ok(share(&self.entries[i].encoded))
            },
            None => match encode_pixels(image, size, resize) {
                Ok(e) => Ok(Arc::new(e)),
                Err(e) => Err(e),
            },
        }
    }

    /// Returns the payload for `image` at `size` from the cache or a fresh
    /// encoding, and records its use.
    pub fn get_or_encode<F: Fn(&RgbaImage, TransferSize) -> Vec<u8>>(
        &mut self,
        image: &RgbaImage,
        size: TransferSize,
        resize: &F,
    ) -> (r: Result<Arc<EncodedImage>, EncodeFailure>)
        requires
            old(self).wf(),
            forall|i: &RgbaImage, t: TransferSize| call_requires(*resize, (i, t)),
        ensures
            final(self).wf(),
            final(self).limit_spec() == old(self).limit_spec(),
            r is Err ==> *final(self) == *old(self),
            forall|i: int|
                0 <= i < old(self).entries_spec().len() && old(self).entries_spec()[i].key == (
                EncodingKey { image: image.id_spec(), size }) ==> r == Ok::<
                    Arc<EncodedImage>,
                    EncodeFailure,
                >(old(self).entries_spec()[i].encoded),
            r is Err ==> encoding_fails(*image, size, *resize),
            r matches Ok(e) && old(self).fits(e.payload@.len()) ==> has_key(
                final(self).entries_spec(),
                EncodingKey { image: image.id_spec(), size },
            ),
            r matches Ok(e) ==> (!has_key(
                old(self).entries_spec(),
                EncodingKey { image: image.id_spec(), size },
            ) ==> encodes_image(*e, *image, size, *resize)),
    {
        let key = EncodingKey { image: image.id(), size };
        let encoded = self.candidate(image, size, resize);
        match encoded {
            Ok(e) => {
                self.accept(key, &e);
                proof {
                    if old(self).fits(e.payload@.len()) && !has_key(old(self).entries_spec(), key) {
                        assert(self.entries_spec().last().key == key);
                        assert(self.entries_spec()[self.entries_spec().len() - 1].key == key);
                    }
                    if old(self).fits(e.payload@.len()) && has_key(old(self).entries_spec(), key) {
                        let i = choose|i: int|
                            0 <= i < old(self).entries_spec().len()
                                && old(self).entries_spec()[i].key == key && self.entries_spec()
                                == old(self).entries_spec().update(
                                i,
                                CacheEntry {
                                    key,
                                    encoded: old(self).entries_spec()[i].encoded,
                                    last_used: self.clock_spec(),
                                },
                            );
                        assert(self.entries_spec()[i].key == key);
                    }
                }
                Ok(e)
            },
            Err(e) => Err(e),
        }
    }

    /// Position of the entry for `key`.
    fn find(&self, key: EncodingKey) -> (r: Option<usize>)
        ensures
            r matches Some(i) ==> i < self.entries_spec().len() && self.entries_spec()[i as int].key
                == key,
            r is None ==> !has_key(self.entries_spec(), key),
    {
        let mut i: usize = 0;
        while i < self.entries.len()
            invariant
                i <= self.entries@.len(),
                forall|j: int| 0 <= j < i ==> self.entries@[j].key != key,
            decreases self.entries@.len() - i,
        {
            if self.entries[i].key == key {
                return Some(i);
            }
            i = i + 1;
        }
        None
    }

    /// Returns whether a payload for `key` is cached.
    pub fn contains(&self, key: EncodingKey) -> (r: bool)
        ensures
            r == has_key(self.entries_spec(), key),
    {
        self.find(key).is_some()
    }

    /// Position of the first least-recently-used entry.
    fn oldest(&self) -> (r: usize)
        requires
            self.entries_spec().len() > 0,
        ensures
            r < self.entries_spec().len(),
            forall|j: int|
                0 <= j < self.entries_spec().len() ==> self.entries_spec()[r as int].last_used
                    <= #[trigger] self.entries_spec()[j].last_used,
    {
        let mut best: usize = 0;
        let mut i: usize = 1;
        while i < self.entries.len()
            invariant
                1 <= i <= self.entries@.len(),
                best < i,
                forall|j: int|
                    0 <= j < i ==> self.entries@[best as int].last_used
                        <= #[trigger] self.entries@[j].last_used,
            decreases self.entries@.len() - i,
        {
            if self.entries[i].last_used < self.entries[best].last_used {
                best = i;
            }
            i = i + 1;
        }
        best
    }

    /// Whether a payload of `len` bytes can be cached at all: it fits the
    /// byte budget.
    pub open spec fn fits(&self, len: nat) -> bool {
        len <= self.limit_spec()
    }

    /// Records a use of `encoded` under `key`, evicting least-recently-used
    /// payloads until the entry and byte budgets admit it. A payload larger
    /// than the whole byte budget is not cached; a key already present only
    /// has its use time refreshed.
    pub fn accept(&mut self, key: EncodingKey, encoded: &Arc<EncodedImage>)
        requires
            old(self).wf(),
        ensures
            final(self).wf(),
            final(self).limit_spec() == old(self).limit_spec(),
            !old(self).fits(encoded.payload@.len()) ==> *final(self) == *old(self),
            old(self).fits(encoded.payload@.len()) ==> final(self).clock_spec() == (
            if old(self).clock_spec() < u64::MAX {
                old(self).clock_spec() + 1
            } else {
                old(self).clock_spec() as int
            }),
            old(self).fits(encoded.payload@.len()) && has_key(
                old(self).entries_spec(),
                key,
            ) ==> exists|i: int|
                0 <= i < old(self).entries_spec().len() && old(self).entries_spec()[i].key == key
                    && final(self).entries_spec() == old(self).entries_spec().update(
                    i,
                    CacheEntry {
                        key,
                        encoded: old(self).entries_spec()[i].encoded,
                        last_used: final(self).clock_spec(),
                    },
                ),
            old(self).fits(encoded.payload@.len()) && !has_key(
                old(self).entries_spec(),
                key,
            ) ==> {
                let kept = final(self).entries_spec().drop_last();
                &&& final(self).entries_spec().len() >= 1
                &&& final(self).entries_spec().last() == (CacheEntry {
                    key,
                    encoded: *encoded,
                    last_used: final(self).clock_spec(),
                })
                &&& forall|i: int|
                    0 <= i < kept.len() ==> old(self).entries_spec().contains(#[trigger] kept[i])
                &&& forall|j: int|
                    0 <= j < old(self).entries_spec().len() && !kept.contains(
                        #[trigger] old(self).entries_spec()[j],
                    ) ==> forall|i: int|
                        0 <= i < kept.len() ==> old(self).entries_spec()[j].last_used
                            <= #[trigger] kept[i].last_used
                &&& kept.len() < old(self).entries_spec().len() ==> exists|j: int|
                    0 <= j < old(self).entries_spec().len() && !kept.contains(
                        old(self).entries_spec()[j],
                    ) && (kept.len() + 1 >= MAX_ENCODED_CACHE_ENTRIES || total_bytes(kept)
                        + entry_len(old(self).entries_spec()[j]) + encoded.payload@.len()
                        > old(self).limit_spec())
            },
    {
        let encoded_bytes = encoded.payload.len();
        if encoded_bytes > self.limit {
            return;
        }
        self.clock = if self.clock < u64::MAX {
            self.clock + 1
        } else {
            self.clock
        };
        let now = self.clock;
        match self.find(key) {
            Some(i) => {
                let refreshed = CacheEntry {
                    key,
                    encoded: share(&self.entries[i].encoded),
                    last_used: now,
                };
                let ghost before = self.entries@;
                proof {
                    lemma_total_update(before, i as int, refreshed);
                }
                self.entries.set(i, refreshed);
                assert(self.entries@ == before.update(i as int, refreshed));
                return;
            },
            None => {},
        }
        let ghost initial = self.entries@;
        let ghost limit = self.limit;
        let ghost start_bytes = self.bytes;
        let ghost mut last_evicted: Option<CacheEntry> = None;
        while self.entries.len() >= self.entry_limit || self.bytes > self.limit - encoded_bytes
            invariant
                self.entry_limit == MAX_ENCODED_CACHE_ENTRIES,
                self.limit == limit,
                self.bytes <= start_bytes,
                self.entries@.len() <= self.entry_limit,
                self.bytes == total_bytes(self.entries@),
                self.bytes <= self.limit,
                encoded_bytes == encoded.payload@.len(),
                encoded_bytes <= self.limit,
                self.clock == now,
                forall|i: int, j: int|
                    0 <= i < j < self.entries@.len() ==> self.entries@[i].key
                        != self.entries@[j].key,
                forall|i: int|
                    0 <= i < self.entries@.len() ==> #[trigger] self.entries@[i].last_used
                        <= self.clock,
                !has_key(self.entries@, key),
                forall|i: int|
                    0 <= i < self.entries@.len() ==> initial.contains(#[trigger] self.entries@[i]),
                forall|j: int|
                    0 <= j < initial.len() && !self.entries@.contains(#[trigger] initial[j])
                        ==> forall|i: int|
                        0 <= i < self.entries@.len() ==> initial[j].last_used
                            <= #[trigger] self.entries@[i].last_used,
                self.entries@.len() < initial.len() ==> (last_evicted matches Some(e) && {
                    &&& initial.contains(e)
                    &&& !self.entries@.contains(e)
                    &&& self.entries@.len() + 1 >= MAX_ENCODED_CACHE_ENTRIES || total_bytes(
                        self.entries@,
                    ) + entry_len(e) + encoded_bytes > self.limit
                }),
                self.entries@.len() <= initial.len(),
            ensures
                self.entries@.len() < self.entry_limit,
                self.bytes + encoded_bytes <= self.limit,
            decreases self.entries@.len(),
        {
            if self.entries.len() == 0 {
                break;
            }
            let index = self.oldest();
            let ghost before = self.entries@;
            let removed = self.entries.remove(index);
            proof {
                lemma_total_remove(before, index as int);
                lemma_total_nonnegative(self.entries@);
                assert(self.entries@ == before.remove(index as int));
                assert forall|i: int|
                    0 <= i < self.entries@.len() implies initial.contains(
                        #[trigger] self.entries@[i],
                    ) by {
                    if i < index {
                        assert(self.entries@[i] == before[i]);
                    } else {
                        assert(self.entries@[i] == before[i + 1]);
                    }
                }
                assert forall|j: int|
                    0 <= j < initial.len() && !self.entries@.contains(
                        #[trigger] initial[j],
                    ) implies forall|i: int|
                    0 <= i < self.entries@.len() ==> initial[j].last_used
                        <= #[trigger] self.entries@[i].last_used by {
                    assert forall|i: int| 0 <= i < self.entries@.len() implies initial[j].last_used
                        <= #[trigger] self.entries@[i].last_used by {
                        let bi = if i < index { i } else { i + 1 };
                        assert(self.entries@[i] == before[bi]);
                        if before.contains(initial[j]) {
                            let k = choose|k: int| 0 <= k < before.len() && before[k] == initial[j];
                            if k != index {
                                let kk = if k < index { k } else { k - 1 };
                                assert(self.entries@[kk] == before[k]);
                            }
                        }
                    }
                }
                assert(!self.entries@.contains(removed)) by {
                    if self.entries@.contains(removed) {
                        let k = choose|k: int| 0 <= k < self.entries@.len() && self.entries@[k] == removed;
                        let bk = if k < index { k } else { k + 1 };
                        assert(before[bk] == removed);
                        assert(before[bk].key == before[index as int].key);
                    }
                }
                last_evicted = Some(removed);
            }
            self.bytes = self.bytes - removed.encoded.payload.len();
        }
        let entry = CacheEntry { key, encoded: share(encoded), last_used: now };
        let ghost kept = self.entries@;
        proof {
            lemma_total_push(self.entries@, entry);
            if kept.len() < initial.len() {
                let e = last_evicted->0;
                let j = choose|j: int| 0 <= j < initial.len() && initial[j] == e;
                assert(!kept.contains(initial[j]));
            }
        }
        self.bytes = self.bytes + encoded_bytes;
        self.entries.push(entry);
        assert(self.entries@.drop_last() =~= kept);
        assert forall|i: int, j: int|
            0 <= i < j < self.entries@.len() implies self.entries@[i].key != self.entries@[j].key by {
            if j == self.entries@.len() - 1 {
                assert(kept[i].key == self.entries@[i].key);
            }
        }
    }
}

// ---------------------------------------------------------------------------
// Transfer sizing.
// ---------------------------------------------------------------------------

/// `n / d` rounded up.
pub open spec fn ceil_div(n: int, d: int) -> int {
    (n + d - 1) / d
}

/// Division rounding up; a numerator within `d - 1` of `u64::MAX`
/// saturates before dividing.
pub fn div_ceil(numerator: u64, denominator: u64) -> (r: u64)
    requires
        denominator > 0,
    ensures
        numerator + denominator - 1 <= u64::MAX ==> r == ceil_div(
            numerator as int,
            denominator as int,
        ),
        numerator + denominator - 1 > u64::MAX ==> r == u64::MAX / denominator,
{
    numerator.saturating_add(denominator - 1) / denominator
}

/// A pixel count rounded up to a multiple of `TRANSFER_BUCKET_PIXELS`.
pub open spec fn bucket_spec(value: int) -> int {
    if value + 63 > u32::MAX {
        (u32::MAX / 64) * 64
    } else {
        ((value + 63) / 64) * 64
    }
}

/// Rounds a pixel count up to a multiple of `TRANSFER_BUCKET_PIXELS`, so
/// that small destination changes reuse one encoding.
pub fn bucket_up(value: u32) -> (r: u32)
    ensures
        r == bucket_spec(value as int),
{
    let rounded = value.saturating_add(TRANSFER_BUCKET_PIXELS - 1) / TRANSFER_BUCKET_PIXELS;
    assert(rounded <= u32::MAX / 64);
    rounded * TRANSFER_BUCKET_PIXELS
}

/// The smaller of two integers.
pub open spec fn min_int(a: int, b: int) -> int {
    if a <= b {
        a
    } else {
        b
    }
}

/// Pixel size in which an image of `w` by `h` pixels shown in `dest` is
/// transferred: the destination's measured pixel size, bucketed along the
/// limiting axis with the other axis following the aspect ratio, and never
/// larger than the source; the source size when pixel metrics are unknown.
pub open spec fn transfer_size_spec(
    w: u32,
    h: u32,
    dest: Rect,
    viewport: Option<TerminalViewport>,
) -> TransferSize {
    let initial = TransferSize { width: w, height: h };
    match viewport {
        None => initial,
        Some(v) => match v.pixels {
            None => initial,
            Some(px) => if v.cells.is_empty_spec() {
                initial
            } else {
                let pw = ceil_div(dest.width * px.width, v.cells.width as int);
                let ph = ceil_div(dest.height * px.height, v.cells.height as int);
                if pw >= w || ph >= h {
                    initial
                } else if pw * h >= ph * w {
                    let width = min_int(bucket_spec(pw), w as int);
                    TransferSize { width: width as u32, height: ceil_div(h * width, w as int) as u32 }
                } else {
                    let height = min_int(bucket_spec(ph), h as int);
                    TransferSize {
                        width: ceil_div(w * height, h as int) as u32,
                        height: height as u32,
                    }
                }
            },
        },
    }
}

proof fn lemma_cell_pixels_fit(cells: u16, pixels: u16, per: u16)
    requires
        per > 0,
    ensures
        0 <= ceil_div(cells * pixels, per as int) <= 0xffff_0000,
        0 <= cells * pixels <= 0xfffe_0001,
{
    lemma_mul_upper_bound(cells as int, 65535, pixels as int, 65535);
    lemma_div_is_ordered(cells * pixels + per - 1, 65535int * 65535 + 65534, per as int);
    lemma_div_is_ordered(0, cells * pixels + per - 1, per as int);
    assert((65535int * 65535 + 65534) / (per as int) <= 65535int * 65535 + 65534) by (nonlinear_arith)
        requires
            per >= 1,
    ;
}

/// Scaling the other axis by `part / whole` of the source never exceeds it.
proof fn lemma_scaled_axis(other: u32, part: int, whole: u32)
    requires
        whole > 0,
        0 <= part <= whole,
    ensures
        0 <= ceil_div(other * part, whole as int) <= other,
        other * part + whole - 1 <= u64::MAX,
{
    lemma_mul_upper_bound(other as int, other as int, part, whole as int);
    lemma_mul_upper_bound(other as int, 0xffff_ffff, whole as int, 0xffff_ffff);
    lemma_div_is_ordered(other * part + whole - 1, other * whole + whole - 1, whole as int);
    lemma_div_is_ordered(0, other * part + whole - 1, whole as int);
    lemma_div_multiples_vanish_fancy(other as int, whole - 1, whole as int);
    assert(other * whole == whole * other) by (nonlinear_arith);
}

/// Chooses the pixel size in which a placement's image is transferred.
pub fn transfer_size(placement: &ImagePlacement, viewport: Option<TerminalViewport>) -> (r:
    TransferSize)
    ensures
        r == transfer_size_spec(
            placement.image_spec().width_spec(),
            placement.image_spec().height_spec(),
            placement.destination_spec(),
            viewport,
        ),
        r.width <= placement.image_spec().width_spec(),
        r.height <= placement.image_spec().height_spec(),
{
    let image = placement.image();
    proof {
        use_type_invariant(image);
    }
    let w = image.width();
    let h = image.height();
    let initial = TransferSize { width: w, height: h };
    let (view, pixels) = match viewport {
        None => {
            return initial;
        },
        Some(v) => match v.pixels {
            None => {
                return initial;
            },
            Some(px) => (v, px),
        },
    };
    if view.cells.is_empty() {
        return initial;
    }
    let destination = placement.destination();
    proof {
        lemma_cell_pixels_fit(destination.width, pixels.width, view.cells.width);
        lemma_cell_pixels_fit(destination.height, pixels.height, view.cells.height);
    }
    let pixel_width = div_ceil(
        destination.width as u64 * pixels.width as u64,
        view.cells.width as u64,
    ) as u32;
    let pixel_height = div_ceil(
        destination.height as u64 * pixels.height as u64,
        view.cells.height as u64,
    ) as u32;
    if pixel_width >= w || pixel_height >= h {
        return initial;
    }
    proof {
        lemma_mul_upper_bound(pixel_width as int, 0xffff_ffff, h as int, 0xffff_ffff);
        lemma_mul_upper_bound(pixel_height as int, 0xffff_ffff, w as int, 0xffff_ffff);
    }
    if pixel_width as u64 * h as u64 >= pixel_height as u64 * w as u64 {
        let bucketed = bucket_up(pixel_width);
        let width = if bucketed < w {
            bucketed
        } else {
            w
        };
        proof {
            lemma_scaled_axis(h, width as int, w);
        }
        let height = div_ceil(h as u64 * width as u64, w as u64) as u32;
        TransferSize { width, height }
    } else {
        let bucketed = bucket_up(pixel_height);
        let height = if bucketed < h {
            bucketed
        } else {
            h
        };
        proof {
            lemma_scaled_axis(w, height as int, h);
        }
        let width = div_ceil(w as u64 * height as u64, h as u64) as u32;
        TransferSize { width, height }
    }
}

/// Source region scaled from image pixels to transfer pixels: the start
/// rounds down and the end rounds up, so the region is never cropped.
pub open spec fn scaled_source_spec(
    source: PixelRect,
    w: u32,
    h: u32,
    size: TransferSize,
) -> PixelRect {
    let x = (source.x * size.width) / (w as int);
    let y = (source.y * size.height) / (h as int);
    let right = ceil_div((source.x + source.width) * size.width, w as int);
    let bottom = ceil_div((source.y + source.height) * size.height, h as int);
    PixelRect { x: x as u32, y: y as u32, width: (right - x) as u32, height: (bottom - y) as u32 }
}

proof fn lemma_scale_bounds(start: u32, len: u32, whole: u32, target: u32)
    requires
        whole > 0,
        start + len <= whole,
    ensures
        0 <= (start * target) / (whole as int) <= ceil_div((start + len) * target, whole as int)
            <= target,
        (start + len) * target + whole - 1 <= u64::MAX,
        start * target <= u64::MAX,
{
    lemma_scaled_axis(target, (start + len) as int, whole);
    lemma_mul_inequality(start as int, (start + len) as int, target as int);
    lemma_div_is_ordered(start * target, (start + len) * target + whole - 1, whole as int);
    lemma_div_is_ordered(0, start * target, whole as int);
    assert(target * (start + len) == (start + len) * target) by (nonlinear_arith);
    lemma_mul_upper_bound((start + len) as int, 0xffff_ffff, target as int, 0xffff_ffff);
}

/// Scales a placement's source region into transfer pixels.
pub fn scaled_source(source: PixelRect, image: &RgbaImage, size: TransferSize) -> (r: PixelRect)
    requires
        source.x + source.width <= image.width_spec(),
        source.y + source.height <= image.height_spec(),
    ensures
        r == scaled_source_spec(source, image.width_spec(), image.height_spec(), size),
{
    proof {
        use_type_invariant(image);
    }
    let w = image.width();
    let h = image.height();
    proof {
        lemma_scale_bounds(source.x, source.width, w, size.width);
        lemma_scale_bounds(source.y, source.height, h, size.height);
    }
    let right = source.x as u64 + source.width as u64;
    let bottom = source.y as u64 + source.height as u64;
    let x = source.x as u64 * size.width as u64 / w as u64;
    let y = source.y as u64 * size.height as u64 / h as u64;
    let scaled_right = div_ceil(right * size.width as u64, w as u64);
    let scaled_bottom = div_ceil(bottom * size.height as u64, h as u64);
    PixelRect::new(x as u32, y as u32, (scaled_right - x) as u32, (scaled_bottom - y) as u32)
}

} // verus!
