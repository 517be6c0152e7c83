//! The supported-codec registry: which file-extension tokens resolve to
//! which codec, and the MIME type served for each. The set mirrors the
//! codecs the encoding backend can name; the transform core itself never
//! touches encoded bytes.

use vstd::prelude::*;
use vstd::string::StringSliceAdditionalSpecFns;

use crate::error::{Error, Production};
use crate::scan::{
    bytes_eq,
    is_alnum,
    last_pos,
    lemma_last_pos_bound,
    lower_byte,
    lower_seq,
    rfind,
};

verus! {

/// A codec identifier resolved from a file-extension-like token.
#[derive(Clone, Copy, Debug, PartialEq, Eq, Structural)]
pub enum Format {
    Avif,
    Jpeg,
    Png,
    Gif,
    WebP,
    Tiff,
    Tga,
    Dds,
    Bmp,
    Ico,
    Hdr,
    OpenExr,
    Pnm,
    Farbfeld,
    Qoi,
}

/// The extension registry, applied to an already-lowercased token.
pub open spec fn spec_format_for_lower(l: Seq<u8>) -> Option<Format> {
    if l == "avif".spec_bytes() {
        Some(Format::Avif)
    } else if l == "jpg".spec_bytes() || l == "jpeg".spec_bytes() || l
        == "jfif".spec_bytes() {
        Some(Format::Jpeg)
    } else if l == "png".spec_bytes() || l == "apng".spec_bytes() {
        Some(Format::Png)
    } else if l == "gif".spec_bytes() {
        Some(Format::Gif)
    } else if l == "webp".spec_bytes() {
        Some(Format::WebP)
    } else if l == "tif".spec_bytes() || l == "tiff".spec_bytes() {
        Some(Format::Tiff)
    } else if l == "tga".spec_bytes() {
        Some(Format::Tga)
    } else if l == "dds".spec_bytes() {
        Some(Format::Dds)
    } else if l == "bmp".spec_bytes() {
        Some(Format::Bmp)
    } else if l == "ico".spec_bytes() {
        Some(Format::Ico)
    } else if l == "hdr".spec_bytes() {
        Some(Format::Hdr)
    } else if l == "exr".spec_bytes() {
        Some(Format::OpenExr)
    } else if l == "pbm".spec_bytes() || l == "pam".spec_bytes() || l == "ppm".spec_bytes()
        || l == "pgm".spec_bytes() || l == "pnm".spec_bytes() {
        Some(Format::Pnm)
    } else if l == "ff".spec_bytes() {
        Some(Format::Farbfeld)
    } else if l == "qoi".spec_bytes() {
        Some(Format::Qoi)
    } else {
        None
    }
}

/// Extension resolution: ASCII-lowercase the token, then look it up.
pub open spec fn spec_format_for_extension(e: Seq<u8>) -> Option<Format> {
    spec_format_for_lower(lower_seq(e))
}

/// ASCII-lowercase a byte string.
fn to_lower(e: &[u8]) -> (r: Vec<u8>)
    ensures
        r@ == lower_seq(e@),
{
    let mut out: Vec<u8> = Vec::new();
    let mut i: usize = 0;
    while i < e.len()
        invariant
            0 <= i <= e@.len(),
            out@.len() == i,
            forall|j: int| 0 <= j < i ==> out@[j] == lower_byte(e@[j]),
        decreases e@.len() - i,
    {
        let c = e[i];
        let l = if ('A' as u8) <= c && c <= ('Z' as u8) {
            c + 32
        } else {
            c
        };
        out.push(l);
        i = i + 1;
    }
    proof {
        assert(out@ =~= lower_seq(e@));
    }
    out
}

/// Resolve a file-extension token (case-insensitively) against the
/// registry.
pub fn format_for_extension(e: &[u8]) -> (r: Option<Format>)
    ensures
        r == spec_format_for_extension(e@),
{
    let l = to_lower(e);
    let s = l.as_slice();
    if bytes_eq(s, "avif".as_bytes()) {
        Some(Format::Avif)
    } else if bytes_eq(s, "jpg".as_bytes()) || bytes_eq(s, "jpeg".as_bytes()) || bytes_eq(
        s,
        "jfif".as_bytes(),
    ) {
        Some(Format::Jpeg)
    } else if bytes_eq(s, "png".as_bytes()) || bytes_eq(s, "apng".as_bytes()) {
        Some(Format::Png)
    } else if bytes_eq(s, "gif".as_bytes()) {
        Some(Format::Gif)
    } else if bytes_eq(s, "webp".as_bytes()) {
        Some(Format::WebP)
    } else if bytes_eq(s, "tif".as_bytes()) || bytes_eq(s, "tiff".as_bytes()) {
        Some(Format::Tiff)
    } else if bytes_eq(s, "tga".as_bytes()) {
        Some(Format::Tga)
    } else if bytes_eq(s, "dds".as_bytes()) {
        Some(Format::Dds)
    } else if bytes_eq(s, "bmp".as_bytes()) {
        Some(Format::Bmp)
    } else if bytes_eq(s, "ico".as_bytes()) {
        Some(Format::Ico)
    } else if bytes_eq(s, "hdr".as_bytes()) {
        Some(Format::Hdr)
    } else if bytes_eq(s, "exr".as_bytes()) {
        Some(Format::OpenExr)
    } else if bytes_eq(s, "pbm".as_bytes()) || bytes_eq(s, "pam".as_bytes()) || bytes_eq(
        s,
        "ppm".as_bytes(),
    ) || bytes_eq(s, "pgm".as_bytes()) || bytes_eq(s, "pnm".as_bytes()) {
        Some(Format::Pnm)
    } else if bytes_eq(s, "ff".as_bytes()) {
        Some(Format::Farbfeld)
    } else if bytes_eq(s, "qoi".as_bytes()) {
        Some(Format::Qoi)
    } else {
        None
    }
}

/// The MIME registry for a response's Content-Type header.
pub open spec fn spec_mime_of(f: Format) -> Seq<u8> {
    match f {
        Format::Avif => "image/avif".spec_bytes(),
        Format::Jpeg => "image/jpeg".spec_bytes(),
        Format::Png => "image/png".spec_bytes(),
        Format::Gif => "image/gif".spec_bytes(),
        Format::WebP => "image/webp".spec_bytes(),
        Format::Tiff => "image/tiff".spec_bytes(),
        Format::Tga => "image/x-targa".spec_bytes(),
        Format::Dds => "image/vnd-ms.dds".spec_bytes(),
        Format::Bmp => "image/bmp".spec_bytes(),
        Format::Ico => "image/x-icon".spec_bytes(),
        Format::Hdr => "image/vnd.radiance".spec_bytes(),
        Format::OpenExr => "image/x-exr".spec_bytes(),
        Format::Pnm => "image/x-portable-anymap".spec_bytes(),
        Format::Farbfeld => "application/octet-stream".spec_bytes(),
        Format::Qoi => "image/x-qoi".spec_bytes(),
    }
}

impl Format {
    /// The MIME type served for this codec.
    pub fn mime_type(&self) -> (r: &'static str)
        ensures
            r.spec_bytes() == spec_mime_of(*self),
    {
        match self {
            Format::Avif => "image/avif",
            Format::Jpeg => "image/jpeg",
            Format::Png => "image/png",
            Format::Gif => "image/gif",
            Format::WebP => "image/webp",
            Format::Tiff => "image/tiff",
            Format::Tga => "image/x-targa",
            Format::Dds => "image/vnd-ms.dds",
            Format::Bmp => "image/bmp",
            Format::Ico => "image/x-icon",
            Format::Hdr => "image/vnd.radiance",
            Format::OpenExr => "image/x-exr",
            Format::Pnm => "image/x-portable-anymap",
            Format::Farbfeld => "application/octet-stream",
            Format::Qoi => "image/x-qoi",
        }
    }
}

/// The format production: a non-empty ASCII-alphanumeric token that
/// resolves in the extension registry.
pub open spec fn spec_parse_format(s: Seq<u8>) -> Option<Format> {
    if s.len() > 0 && (forall|j: int| 0 <= j < s.len() ==> is_alnum(#[trigger] s[j])) {
        spec_format_for_extension(s)
    } else {
        None
    }
}

/// Parse a format token: alphanumeric, resolved via the codec registry;
/// unresolved tokens fail.
pub fn parse_format(seg: &[u8]) -> (r: Result<Format, Error>)
    ensures
        (r is Ok) == (spec_parse_format(seg@) is Some),
        r matches Ok(f) ==> Some(f) == spec_parse_format(seg@),
        r matches Err(e) ==> e matches Error::Syntax { .. },
{
    let mut i: usize = 0;
    let mut alnum_ok = true;
    while i < seg.len()
        invariant
            0 <= i <= seg@.len(),
            alnum_ok == (forall|j: int| 0 <= j < i ==> is_alnum(#[trigger] seg@[j])),
        decreases seg@.len() - i,
    {
        let c = seg[i];
        let is_an = (('0' as u8) <= c && c <= ('9' as u8)) || (('a' as u8) <= c && c <= (
        'z' as u8)) || (('A' as u8) <= c && c <= ('Z' as u8));
        if !is_an {
            alnum_ok = false;
        }
        i = i + 1;
    }
    if seg.len() == 0 || !alnum_ok {
        return Err(Error::Syntax { pos: 0, expected: Production::Format });
    }
    match format_for_extension(seg) {
        Some(f) => Ok(f),
        None => Err(Error::Syntax { pos: 0, expected: Production::Format }),
    }
}

/// Resolution of a `Content-Type` header value against the MIME
/// registry, including the alias spellings the registry recognises.
pub open spec fn spec_format_for_mime(m: Seq<u8>) -> Option<Format> {
    if m == "image/avif".spec_bytes() {
        Some(Format::Avif)
    } else if m == "image/jpeg".spec_bytes() {
        Some(Format::Jpeg)
    } else if m == "image/png".spec_bytes() {
        Some(Format::Png)
    } else if m == "image/gif".spec_bytes() {
        Some(Format::Gif)
    } else if m == "image/webp".spec_bytes() {
        Some(Format::WebP)
    } else if m == "image/tiff".spec_bytes() {
        Some(Format::Tiff)
    } else if m == "image/x-targa".spec_bytes() || m == "image/x-tga".spec_bytes() {
        Some(Format::Tga)
    } else if m == "image/vnd-ms.dds".spec_bytes() {
        Some(Format::Dds)
    } else if m == "image/bmp".spec_bytes() {
        Some(Format::Bmp)
    } else if m == "image/x-icon".spec_bytes() || m
        == "image/vnd.microsoft.icon".spec_bytes() {
        Some(Format::Ico)
    } else if m == "image/vnd.radiance".spec_bytes() {
        Some(Format::Hdr)
    } else if m == "image/x-exr".spec_bytes() {
        Some(Format::OpenExr)
    } else if m == "image/x-portable-bitmap".spec_bytes() || m
        == "image/x-portable-graymap".spec_bytes() || m
        == "image/x-portable-pixmap".spec_bytes() || m
        == "image/x-portable-anymap".spec_bytes() {
        Some(Format::Pnm)
    } else if m == "image/x-qoi".spec_bytes() {
        Some(Format::Qoi)
    } else {
        None
    }
}

/// Resolve a `Content-Type` header value against the MIME registry.
pub fn format_for_mime(m: &[u8]) -> (r: Option<Format>)
    ensures
        r == spec_format_for_mime(m@),
{
    if bytes_eq(m, "image/avif".as_bytes()) {
        Some(Format::Avif)
    } else if bytes_eq(m, "image/jpeg".as_bytes()) {
        Some(Format::Jpeg)
    } else if bytes_eq(m, "image/png".as_bytes()) {
        Some(Format::Png)
    } else if bytes_eq(m, "image/gif".as_bytes()) {
        Some(Format::Gif)
    } else if bytes_eq(m, "image/webp".as_bytes()) {
        Some(Format::WebP)
    } else if bytes_eq(m, "image/tiff".as_bytes()) {
        Some(Format::Tiff)
    } else if bytes_eq(m, "image/x-targa".as_bytes()) || bytes_eq(
        m,
        "image/x-tga".as_bytes(),
    ) {
        Some(Format::Tga)
    } else if bytes_eq(m, "image/vnd-ms.dds".as_bytes()) {
        Some(Format::Dds)
    } else if bytes_eq(m, "image/bmp".as_bytes()) {
        Some(Format::Bmp)
    } else if bytes_eq(m, "image/x-icon".as_bytes()) || bytes_eq(
        m,
        "image/vnd.microsoft.icon".as_bytes(),
    ) {
        Some(Format::Ico)
    } else if bytes_eq(m, "image/vnd.radiance".as_bytes()) {
        Some(Format::Hdr)
    } else if bytes_eq(m, "image/x-exr".as_bytes()) {
        Some(Format::OpenExr)
    } else if bytes_eq(m, "image/x-portable-bitmap".as_bytes()) || bytes_eq(
        m,
        "image/x-portable-graymap".as_bytes(),
    ) || bytes_eq(m, "image/x-portable-pixmap".as_bytes()) || bytes_eq(
        m,
        "image/x-portable-anymap".as_bytes(),
    ) {
        Some(Format::Pnm)
    } else if bytes_eq(m, "image/x-qoi".as_bytes()) {
        Some(Format::Qoi)
    } else {
        None
    }
}

/// The file-extension-like token of a URL path: the part of the final
/// `/`-separated segment after its last `.`, or the whole segment when
/// it has none.
pub open spec fn spec_url_extension(p: Seq<u8>) -> Seq<u8> {
    let comp = p.subrange(last_pos(p, '/' as u8) + 1, p.len() as int);
    let d = last_pos(comp, '.' as u8);
    if d >= 0 {
        comp.subrange(d + 1, comp.len() as int)
    } else {
        comp
    }
}

/// Extract the extension token of a URL path.
pub fn url_extension(p: &[u8]) -> (r: Vec<u8>)
    ensures
        r@ == spec_url_extension(p@),
{
    proof {
        lemma_last_pos_bound(p@, '/' as u8);
    }
    let n = p.len();
    let cs: usize = match rfind(p, '/' as u8) {
        Some(i) => i + 1,
        None => 0,
    };
    let comp = vstd::slice::slice_subrange(p, cs, n);
    proof {
        lemma_last_pos_bound(comp@, '.' as u8);
    }
    match rfind(comp, '.' as u8) {
        Some(d) => vstd::slice::slice_to_vec(
            vstd::slice::slice_subrange(comp, d + 1, comp.len()),
        ),
        None => vstd::slice::slice_to_vec(comp),
    }
}

/// The codec a fetched response carries: its `Content-Type` header
/// resolved against the MIME registry, falling back to the URL path's
/// file extension when the header is absent.
pub open spec fn spec_format_for_content(content_type: Option<Seq<u8>>, url_path: Seq<
    u8,
>) -> Option<Format> {
    match content_type {
        Some(m) => spec_format_for_mime(m),
        None => spec_format_for_extension(spec_url_extension(url_path)),
    }
}

/// Determine a fetched response's codec from its `Content-Type`
/// header, or from its URL path's extension when the header is absent.
pub fn format_for_content(content_type: Option<&[u8]>, url_path: &[u8]) -> (r: Option<Format>)
    ensures
        r == spec_format_for_content(
            match content_type {
                Some(m) => Some(m@),
                None => None,
            },
            url_path@,
        ),
{
    match content_type {
        Some(m) => format_for_mime(m),
        None => {
            let ext = url_extension(url_path);
            format_for_extension(ext.as_slice())
        },
    }
}

} // verus!
