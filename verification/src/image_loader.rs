//! The image sources: a local directory-backed source and a proxy
//! source with a content-addressed on-disk cache.
//!
//! The decisions — identifier decoding, index lookups, path derivation —
//! are computed and verified here. The I/O they call for (opening and
//! writing files, the outbound fetch) is carried out by the runtime
//! around the library, which hands the results back.

use vstd::prelude::*;

use base64ct::Encoding;
use sha2::Digest;

use crate::bytemap::ByteMap;
use crate::error::Error;
use crate::format::Format;
use crate::raster::{img_data, bytes_of};
use crate::scan::{last_pos, lemma_last_pos_bound, rfind};

verus! {

// ---------------------------------------------------------------------
// Hex and shard paths
// ---------------------------------------------------------------------

/// The lowercase hex digit for a nibble.
pub open spec fn hex_digit(n: u8) -> u8 {
    if n < 10 {
        (n + ('0' as u8)) as u8
    } else {
        ((n - 10) + ('a' as u8)) as u8
    }
}

/// Lowercase hex encoding: two digits for each byte, high nibble first.
pub open spec fn hex_of(s: Seq<u8>) -> Seq<u8> {
    Seq::new(
        s.len() * 2,
        |i: int|
            if i % 2 == 0 {
                hex_digit(s[i / 2] / 16)
            } else {
                hex_digit(s[i / 2] % 16)
            },
    )
}

fn hexd(n: u8) -> (r: u8)
    requires
        n < 16,
    ensures
        r == hex_digit(n),
{
    if n < 10 {
        n + 48
    } else {
        n - 10 + 97
    }
}

/// Lowercase hex encoding of a byte string.
pub fn hex_bytes(s: &[u8]) -> (r: Vec<u8>)
    ensures
        r@ == hex_of(s@),
{
    let mut out: Vec<u8> = Vec::new();
    let mut i: usize = 0;
    while i < s.len()
        invariant
            0 <= i <= s@.len(),
            out@.len() == 2 * i,
            forall|j: int| 0 <= j < 2 * i ==> out@[j] == hex_of(s@)[j],
        decreases s@.len() - i,
    {
        let b = s[i];
        out.push(hexd(b / 16));
        out.push(hexd(b % 16));
        proof {
            assert((2 * i as int) % 2 == 0);
            assert((2 * i as int + 1) % 2 == 1);
            assert((2 * i as int) / 2 == i as int);
            assert((2 * i as int + 1) / 2 == i as int);
        }
        i = i + 1;
    }
    proof {
        assert(out@ =~= hex_of(s@));
    }
    out
}

/// Append `src` to `dst`.
fn append_bytes(dst: &mut Vec<u8>, src: &[u8])
    ensures
        final(dst)@ == old(dst)@ + src@,
{
    let mut i: usize = 0;
    while i < src.len()
        invariant
            0 <= i <= src@.len(),
            dst@ == old(dst)@ + src@.subrange(0, i as int),
        decreases src@.len() - i,
    {
        dst.push(src[i]);
        proof {
            assert(old(dst)@ + src@.subrange(0, i + 1) =~= (old(dst)@ + src@.subrange(
                0,
                i as int,
            )).push(src@[i as int]));
        }
        i = i + 1;
    }
    proof {
        assert(src@.subrange(0, src@.len() as int) =~= src@);
    }
}

/// A single `/`, as path glue.
pub open spec fn slash() -> Seq<u8> {
    seq![('/' as u8)]
}

/// The shard-relative cache location of a digest:
/// `<first 2 hex chars>/<next 2 hex chars>/<full hex digest>`.
pub open spec fn spec_shard_rel(digest: Seq<u8>) -> Seq<u8> {
    let hx = hex_of(digest);
    hx.subrange(0, 2) + slash() + hx.subrange(2, 4) + slash() + hx
}

/// The on-disk cache path of a digest under a cache root.
pub open spec fn spec_cached_path(dir: Seq<u8>, digest: Seq<u8>) -> Seq<u8> {
    dir + slash() + spec_shard_rel(digest)
}

/// Derive the sharded cache file path for a content digest.
pub fn cached_img_path(cache_dir: &[u8], digest: &[u8]) -> (r: Vec<u8>)
    requires
        digest@.len() == 32,
    ensures
        r@ == spec_cached_path(cache_dir@, digest@),
{
    let hx = hex_bytes(digest);
    let mut out = vstd::slice::slice_to_vec(cache_dir);
    out.push('/' as u8);
    out.push(hx[0]);
    out.push(hx[1]);
    out.push('/' as u8);
    out.push(hx[2]);
    out.push(hx[3]);
    out.push('/' as u8);
    append_bytes(&mut out, hx.as_slice());
    proof {
        assert(out@ =~= spec_cached_path(cache_dir@, digest@));
    }
    out
}

// ---------------------------------------------------------------------
// Trusted wrappers
// ---------------------------------------------------------------------

/// The 256-bit digest of a byte string; it depends on the bytes alone.
pub uninterp spec fn sha256_of(data: Seq<u8>) -> Seq<u8>;

/// Relies on sha2::Sha256 (through the Digest trait): a 32-byte digest
/// that is a function of the input bytes alone.
#[verifier::external_body]
fn sha256(data: &[u8]) -> (r: Vec<u8>)
    ensures
        r@ == sha256_of(data@),
        r@.len() == 32,
{
    sha2::Sha256::digest(data).to_vec()
}

/// What unpadded base64url decoding yields for a byte string, if it is
/// valid; it depends on the bytes alone.
pub uninterp spec fn b64url_decode(s: Seq<u8>) -> Option<Seq<u8>>;

/// Relies on base64ct::Base64UrlUnpadded::decode: strict unpadded
/// base64url; the result is a function of the input bytes alone, and
/// decoding rejects anything outside the alphabet.
#[verifier::external_body]
fn b64url_decode_bytes(id: &[u8]) -> (r: Option<Vec<u8>>)
    ensures
        match r {
            Some(v) => b64url_decode(id@) == Some(v@),
            None => b64url_decode(id@) is None,
        },
{
    let mut buf: Vec<u8> = Vec::new();
    buf.resize(id.len(), 0u8);
    match base64ct::Base64UrlUnpadded::decode(id, &mut buf) {
        Ok(s) => Some(s.to_vec()),
        Err(_) => None,
    }
}

/// Relies on core::str::from_utf8: it accepts a byte string exactly
/// when the bytes are valid UTF-8.
#[verifier::external_body]
fn utf8_ok(v: &[u8]) -> (r: bool)
    ensures
        r == vstd::utf8::valid_utf8(v@),
{
    core::str::from_utf8(v).is_ok()
}

// ---------------------------------------------------------------------
// Identifier padding
// ---------------------------------------------------------------------

/// An identifier with any trailing `=` padding removed, as the proxy
/// accepts both padded and unpadded spellings.
pub open spec fn spec_strip_pad(s: Seq<u8>) -> Seq<u8>
    decreases s.len(),
{
    if s.len() > 0 && s.last() == ('=' as u8) {
        spec_strip_pad(s.drop_last())
    } else {
        s
    }
}

fn strip_pad<'a>(id: &'a [u8]) -> (r: &'a [u8])
    ensures
        r@ == spec_strip_pad(id@),
{
    let mut e: usize = id.len();
    proof {
        assert(id@.subrange(0, id@.len() as int) =~= id@);
    }
    while e > 0 && id[e - 1] == ('=' as u8)
        invariant
            0 <= e <= id@.len(),
            spec_strip_pad(id@) == spec_strip_pad(id@.subrange(0, e as int)),
        decreases e,
    {
        proof {
            let cur = id@.subrange(0, e as int);
            assert(cur.last() == id@[e - 1]);
            assert(cur.drop_last() =~= id@.subrange(0, e - 1));
        }
        e = e - 1;
    }
    proof {
        let cur = id@.subrange(0, e as int);
        if e > 0 {
            assert(cur.last() == id@[e - 1]);
        }
        assert(spec_strip_pad(cur) == cur);
    }
    vstd::slice::slice_subrange(id, 0, e)
}

// ---------------------------------------------------------------------
// Local source
// ---------------------------------------------------------------------

/// The fixed on-disk container extension of the local source, as bytes.
pub open spec fn tif_ext() -> Seq<u8> {
    seq![('t' as u8), ('i' as u8), ('f' as u8)]
}

/// An identifier with the on-disk container extension forced onto its
/// final path component: everything after the component's last `.` is
/// replaced by `tif`; a component without an extension (including one
/// whose only `.` leads it) gets `.tif` appended.
pub open spec fn spec_force_ext(id: Seq<u8>) -> Seq<u8> {
    let cs = last_pos(id, '/' as u8) + 1;
    let d = last_pos(id, '.' as u8);
    if d > cs {
        id.subrange(0, d + 1) + tif_ext()
    } else {
        id + seq![('.' as u8)] + tif_ext()
    }
}

/// The on-disk location of a local identifier under a base directory.
pub open spec fn spec_local_path(dir: Seq<u8>, id: Seq<u8>) -> Seq<u8> {
    dir + slash() + spec_force_ext(id)
}

/// A local source: a mapping from namespace prefixes to base
/// directories. Resolution joins the directory with the identifier and
/// forces the fixed on-disk container extension; opening and decoding
/// the file is the runtime's part.
#[derive(Debug)]
pub struct LocalLoader {
    image_dirs: ByteMap<Vec<u8>>,
}

impl View for LocalLoader {
    type V = Map<Seq<u8>, Seq<u8>>;

    closed spec fn view(&self) -> Map<Seq<u8>, Seq<u8>> {
        self.image_dirs@
    }
}

impl LocalLoader {
    /// A local source with no prefixes.
    pub fn new() -> (r: Self)
        ensures
            r@ == Map::<Seq<u8>, Seq<u8>>::empty(),
    {
        LocalLoader { image_dirs: ByteMap::new() }
    }

    /// Map `prefix` to base directory `dir`, replacing any previous
    /// mapping.
    pub fn insert_dir(&mut self, prefix: &[u8], dir: &[u8])
        ensures
            final(self)@ == old(self)@.insert(prefix@, dir@),
    {
        let d = vstd::slice::slice_to_vec(dir);
        self.image_dirs.insert(prefix, d);
    }

    /// The on-disk path an identifier resolves to under `prefix`:
    /// `NotFound` for an unknown prefix, else the base directory joined
    /// with the identifier, with the container extension forced.
    pub fn resolve_path(&self, prefix: &[u8], identifier: &[u8]) -> (r: Result<Vec<u8>, Error>)
        ensures
            (r is Ok) == self@.contains_key(prefix@),
            r matches Ok(p) ==> p@ == spec_local_path(self@[prefix@], identifier@),
            r matches Err(e) ==> e == Error::NotFound,
    {
        let dir = match self.image_dirs.get(prefix) {
            Some(d) => d,
            None => {
                return Err(Error::NotFound);
            },
        };
        let mut out = vstd::slice::slice_to_vec(dir.as_slice());
        out.push('/' as u8);
        let forced = force_ext(identifier);
        append_bytes(&mut out, forced.as_slice());
        proof {
            assert(out@ =~= spec_local_path(self@[prefix@], identifier@));
        }
        Ok(out)
    }
}

impl Default for LocalLoader {
    fn default() -> (r: Self)
        ensures
            r@ == Map::<Seq<u8>, Seq<u8>>::empty(),
    {
        LocalLoader::new()
    }
}

/// Force the on-disk container extension onto an identifier.
fn force_ext(id: &[u8]) -> (r: Vec<u8>)
    ensures
        r@ == spec_force_ext(id@),
{
    proof {
        lemma_last_pos_bound(id@, '/' as u8);
        lemma_last_pos_bound(id@, '.' as u8);
    }
    let n = id.len();
    let sep = rfind(id, '/' as u8);
    let dot = rfind(id, '.' as u8);
    proof {
        if let Some(d) = dot {
            assert(d < n);
        }
        if let Some(s) = sep {
            assert(s < n);
        }
    }
    let replace_at: Option<usize> = match (dot, sep) {
        (Some(d), Some(s)) => if d > s + 1 {
            Some(d)
        } else {
            None
        },
        (Some(d), None) => if d > 0 {
            Some(d)
        } else {
            None
        },
        (None, _) => None,
    };
    match replace_at {
        Some(d) => {
            let mut out = vstd::slice::slice_to_vec(vstd::slice::slice_subrange(id, 0, d + 1));
            out.push('t' as u8);
            out.push('i' as u8);
            out.push('f' as u8);
            proof {
                assert(out@ =~= spec_force_ext(id@));
            }
            out
        },
        None => {
            let mut out = vstd::slice::slice_to_vec(id);
            out.push('.' as u8);
            out.push('t' as u8);
            out.push('i' as u8);
            out.push('f' as u8);
            proof {
                assert(out@ =~= spec_force_ext(id@));
            }
            out
        },
    }
}

// ---------------------------------------------------------------------
// Proxy source
// ---------------------------------------------------------------------

/// One cache association: the content digest of the decoded pixel
/// bytes, and the codec the cached file is encoded with.
#[derive(Clone, Debug)]
pub struct CacheEntry {
    pub digest: Vec<u8>,
    pub format: Format,
}

impl View for CacheEntry {
    type V = (Seq<u8>, Format);

    open spec fn view(&self) -> (Seq<u8>, Format) {
        (self.digest@, self.format)
    }
}

/// What a proxy identifier resolves to: a cache file to read, or a URI
/// that must be fetched (and then registered).
#[derive(Clone, Debug, PartialEq, Eq)]
pub enum ProxyStep {
    Cached { path: Vec<u8>, format: Format },
    Fetch { uri: Vec<u8> },
}

/// A proxy source: a cache base directory and the process-lifetime
/// URI index. The index starts empty on every construction; only the
/// cache files on disk are durable. The outbound client (with its
/// bounded connect and read timeouts) and the cache warm-up scan
/// belong to the runtime around the library.
#[derive(Debug)]
pub struct ProxyLoader {
    cache_dir: Vec<u8>,
    uri_index: ByteMap<CacheEntry>,
}

impl ProxyLoader {
    /// The cache base directory.
    pub closed spec fn dir(self) -> Seq<u8> {
        self.cache_dir@
    }

    /// The URI index: source URI to content digest and codec format.
    pub closed spec fn index(self) -> Map<Seq<u8>, (Seq<u8>, Format)> {
        self.uri_index@
    }

    /// Every indexed digest is a 256-bit digest.
    pub closed spec fn wf(self) -> bool {
        forall|k: Seq<u8>|
            self.uri_index@.contains_key(k) ==> (#[trigger] self.uri_index@[k]).0.len() == 32
    }

    /// A proxy source over a cache directory, with an empty URI index.
    pub fn new(cache_dir: &[u8]) -> (r: Self)
        ensures
            r.dir() == cache_dir@,
            r.index() == Map::<Seq<u8>, (Seq<u8>, Format)>::empty(),
            r.wf(),
    {
        ProxyLoader {
            cache_dir: vstd::slice::slice_to_vec(cache_dir),
            uri_index: ByteMap::new(),
        }
    }

    /// Decide how to serve an identifier: decode it (unpadded
    /// base64url, with trailing `=` tolerated) into a UTF-8 source
    /// URI; a URI already in the index is served from its
    /// digest-derived cache path, never fetched again; an unknown URI
    /// must be fetched. An identifier that does not decode, or whose
    /// decoded bytes are not UTF-8, is `BadInput`.
    pub fn resolve(&self, identifier: &[u8]) -> (r: Result<ProxyStep, Error>)
        requires
            self.wf(),
        ensures
            (r is Err) == (b64url_decode(spec_strip_pad(identifier@)) is None
                || !vstd::utf8::valid_utf8(
                b64url_decode(spec_strip_pad(identifier@)).unwrap(),
            )),
            r matches Err(e) ==> e == Error::BadInput,
            r matches Ok(step) ==> {
                let uri = b64url_decode(spec_strip_pad(identifier@)).unwrap();
                if self.index().contains_key(uri) {
                    step matches ProxyStep::Cached { path, format } && path@
                        == spec_cached_path(self.dir(), self.index()[uri].0) && format
                        == self.index()[uri].1
                } else {
                    step matches ProxyStep::Fetch { uri: u } && u@ == uri
                }
            },
    {
        let stripped = strip_pad(identifier);
        let uri = match b64url_decode_bytes(stripped) {
            None => {
                return Err(Error::BadInput);
            },
            Some(u) => u,
        };
        if !utf8_ok(uri.as_slice()) {
            return Err(Error::BadInput);
        }
        match self.uri_index.get(uri.as_slice()) {
            Some(entry) => {
                let path = cached_img_path(self.cache_dir.as_slice(), entry.digest.as_slice());
                Ok(ProxyStep::Cached { path, format: entry.format })
            },
            None => Ok(ProxyStep::Fetch { uri }),
        }
    }

    /// Register a fetched and decoded image under its source URI: the
    /// cache key is the 256-bit digest of the decoded pixel bytes, and
    /// the returned path is where the encoded bytes belong on disk
    /// (`<cache>/<2 hex>/<2 hex>/<full hex>`). Writing over an already
    /// existing cache file is harmless: the digest guarantees the
    /// content is byte-identical.
    pub fn register_image(&mut self, uri: &[u8], image: &image::DynamicImage, format: Format)
        -> (r: Vec<u8>)
        requires
            old(self).wf(),
        ensures
            final(self).wf(),
            final(self).dir() == old(self).dir(),
            final(self).index() == old(self).index().insert(
                uri@,
                (sha256_of(img_data(*image)), format),
            ),
            r@ == spec_cached_path(old(self).dir(), sha256_of(img_data(*image))),
    {
        let digest = sha256(bytes_of(image));
        let path = cached_img_path(self.cache_dir.as_slice(), digest.as_slice());
        self.uri_index.insert(uri, CacheEntry { digest, format });
        path
    }
}

// ---------------------------------------------------------------------
// Source dispatch
// ---------------------------------------------------------------------

/// The closed set of source backends.
#[derive(Debug)]
pub enum ImageLoader {
    Local(LocalLoader),
    Proxy(ProxyLoader),
}

/// The I/O step a request needs next, as decided by its source.
#[derive(Clone, Debug, PartialEq, Eq)]
pub enum FetchPlan {
    LocalFile { path: Vec<u8> },
    CacheRead { path: Vec<u8>, format: Format },
    RemoteFetch { uri: Vec<u8> },
}

impl ImageLoader {
    pub open spec fn wf(self) -> bool {
        match self {
            ImageLoader::Proxy(p) => p.wf(),
            ImageLoader::Local(_) => true,
        }
    }

    /// Decide the I/O step that serves `(prefix, identifier)`: a local
    /// source yields the file to open; a proxy source yields either
    /// the cache file to read or the URI to fetch.
    pub fn get_image_plan(&self, prefix: &[u8], identifier: &[u8]) -> (r: Result<
        FetchPlan,
        Error,
    >)
        requires
            self.wf(),
        ensures
            self matches ImageLoader::Local(l) ==> {
                &&& (r is Ok) == l@.contains_key(prefix@)
                &&& (r matches Ok(p) ==> p matches FetchPlan::LocalFile { path } && path@
                    == spec_local_path(l@[prefix@], identifier@))
                &&& (r matches Err(e) ==> e == Error::NotFound)
            },
            self matches ImageLoader::Proxy(px) ==> {
                &&& (r is Err) == (b64url_decode(spec_strip_pad(identifier@)) is None
                    || !vstd::utf8::valid_utf8(
                    b64url_decode(spec_strip_pad(identifier@)).unwrap(),
                ))
                &&& (r matches Err(e) ==> e == Error::BadInput)
                &&& (r matches Ok(p) ==> {
                    let uri = b64url_decode(spec_strip_pad(identifier@)).unwrap();
                    if px.index().contains_key(uri) {
                        p matches FetchPlan::CacheRead { path, format } && path@
                            == spec_cached_path(px.dir(), px.index()[uri].0) && format
                            == px.index()[uri].1
                    } else {
                        p matches FetchPlan::RemoteFetch { uri: u } && u@ == uri
                    }
                })
            },
    {
        match self {
            ImageLoader::Local(l) => match l.resolve_path(prefix, identifier) {
                Ok(path) => Ok(FetchPlan::LocalFile { path }),
                Err(e) => Err(e),
            },
            ImageLoader::Proxy(px) => match px.resolve(identifier) {
                Ok(ProxyStep::Cached { path, format }) => Ok(
                    FetchPlan::CacheRead { path, format },
                ),
                Ok(ProxyStep::Fetch { uri }) => Ok(FetchPlan::RemoteFetch { uri }),
                Err(e) => Err(e),
            },
        }
    }
}

} // verus!
