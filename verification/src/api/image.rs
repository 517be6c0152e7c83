//! The image-request grammar: `identifier/region/size/rotation/quality.format`.
//!
//! Parsing is all-or-nothing: each `/`-delimited segment must be consumed
//! in full by its own production, and nothing may remain after the last.
//! The spec functions in this module define exactly which byte strings
//! parse and to which value; every parser's contract is stated against
//! them.

use vstd::prelude::*;
use vstd::string::StringSliceAdditionalSpecFns;
use vstd::slice::{slice_subrange, slice_to_vec};

use crate::decimal::Decimal;
use crate::error::{Error, Production};
use crate::format::{spec_parse_format, parse_format, Format};
use crate::scan::{
    is_digit,
    lemma_digits_end_at,
    lemma_uint_str_digits,
    lemma_uint_val_uint_str,
    scan_dec,
    scan_uint,
    spec_scan_dec,
    spec_scan_uint,
    starts_with_at,
    tail_is,
    u32_digits,
    uint_str,
};

verus! {

/// The sub-rectangle of the source image to extract.
#[derive(Clone, Copy, Debug, PartialEq, Eq, Structural)]
pub enum Region {
    Full,
    Square,
    Absolute { x: u32, y: u32, w: u32, h: u32 },
    Percent { x: Decimal, y: Decimal, w: Decimal, h: Decimal },
}

impl Region {
    /// An absolute region has strictly positive width and height (a
    /// zero is a parse failure, never a runtime state); percent fields
    /// carry the parser's bound on fractional digits.
    pub open spec fn wf(self) -> bool {
        match self {
            Region::Absolute { w, h, .. } => w > 0 && h > 0,
            Region::Percent { x, y, w, h } => x.wf() && y.wf() && w.wf() && h.wf(),
            _ => true,
        }
    }
}

impl Default for Region {
    fn default() -> (r: Self)
        ensures
            r == Region::Full,
    {
        Region::Full
    }
}

/// The target-size production, without its flags.
#[derive(Clone, Copy, Debug, PartialEq, Eq, Structural)]
pub enum SizeKind {
    Max,
    Width(u32),
    Height(u32),
    Percent(Decimal),
    WidthHeight { w: u32, h: u32 },
}

impl SizeKind {
    pub open spec fn wf(self) -> bool {
        match self {
            SizeKind::Width(w) => w > 0,
            SizeKind::Height(h) => h > 0,
            SizeKind::WidthHeight { w, h } => w > 0 && h > 0,
            SizeKind::Percent(d) => d.wf(),
            SizeKind::Max => true,
        }
    }
}

impl Default for SizeKind {
    fn default() -> (r: Self)
        ensures
            r == SizeKind::Max,
    {
        SizeKind::Max
    }
}

/// The target dimensions, with the upscale-permission (`^`) and
/// aspect-ratio (`!`) flags, which may appear in either order.
#[derive(Clone, Copy, Debug, PartialEq, Eq, Structural)]
pub struct Size {
    pub allow_upscale: bool,
    pub maintain_ratio: bool,
    pub kind: SizeKind,
}

impl Size {
    pub open spec fn wf(self) -> bool {
        self.kind.wf()
    }
}

impl Default for Size {
    fn default() -> (r: Self)
        ensures
            r == (Size { allow_upscale: false, maintain_ratio: false, kind: SizeKind::Max }),
    {
        Size { allow_upscale: false, maintain_ratio: false, kind: SizeKind::Max }
    }
}

/// The quality production; it performs no pixel transform in this core.
#[derive(Clone, Copy, Debug, PartialEq, Eq, Structural)]
pub enum Quality {
    Color,
    Gray,
    Bitonal,
    Default,
}

impl Default for Quality {
    fn default() -> (r: Self)
        ensures
            r == Quality::Color,
    {
        Quality::Color
    }
}

/// A discrete rotation: multiples of 90 degrees only (`360` normalizes
/// to `0`).
#[derive(Clone, Copy, Debug, PartialEq, Eq, Structural)]
pub enum RotationDeg {
    Deg0,
    Deg90,
    Deg180,
    Deg270,
}

impl Default for RotationDeg {
    fn default() -> (r: Self)
        ensures
            r == RotationDeg::Deg0,
    {
        RotationDeg::Deg0
    }
}

/// Rotation with an optional leading mirror flag (`!`), applied before
/// the rotation itself.
#[derive(Clone, Copy, Debug, PartialEq, Eq, Structural)]
pub struct Rotation {
    pub deg: RotationDeg,
    pub mirror: bool,
}

impl Default for Rotation {
    fn default() -> (r: Self)
        ensures
            r == (Rotation { deg: RotationDeg::Deg0, mirror: false }),
    {
        Rotation { deg: RotationDeg::Deg0, mirror: false }
    }
}

/// A fully parsed image request. Constructed only by the parser.
#[derive(Clone, Debug)]
pub struct ImageRequest {
    pub identifier: Vec<u8>,
    pub region: Region,
    pub size: Size,
    pub rotation: Rotation,
    pub quality: Quality,
    pub format: Format,
}

impl ImageRequest {
    pub open spec fn wf(self) -> bool {
        self.region.wf() && self.size.wf()
    }
}

// ---------------------------------------------------------------------
// Region
// ---------------------------------------------------------------------

/// `F,F,F,F` from `from` to the end of the segment.
pub open spec fn spec_parse_pct_quad(s: Seq<u8>, from: int) -> Option<
    (Decimal, Decimal, Decimal, Decimal),
> {
    match spec_scan_dec(s, from) {
        None => None,
        Some((x, p1)) => if p1 < s.len() && s[p1] == (',' as u8) {
            match spec_scan_dec(s, p1 + 1) {
                None => None,
                Some((y, p2)) => if p2 < s.len() && s[p2] == (',' as u8) {
                    match spec_scan_dec(s, p2 + 1) {
                        None => None,
                        Some((w, p3)) => if p3 < s.len() && s[p3] == (',' as u8) {
                            match spec_scan_dec(s, p3 + 1) {
                                None => None,
                                Some((h, p4)) => if p4 == s.len() {
                                    Some((x, y, w, h))
                                } else {
                                    None
                                },
                            }
                        } else {
                            None
                        },
                    }
                } else {
                    None
                },
            }
        } else {
            None
        },
    }
}

/// `U,U,U+,U+` from `from` to the end of the segment: the third and
/// fourth values must be strictly positive.
pub open spec fn spec_parse_int_quad(s: Seq<u8>, from: int) -> Option<(int, int, int, int)> {
    match spec_scan_uint(s, from, u32::MAX as int) {
        None => None,
        Some((x, p1)) => if p1 < s.len() && s[p1] == (',' as u8) {
            match spec_scan_uint(s, p1 + 1, u32::MAX as int) {
                None => None,
                Some((y, p2)) => if p2 < s.len() && s[p2] == (',' as u8) {
                    match spec_scan_uint(s, p2 + 1, u32::MAX as int) {
                        None => None,
                        Some((w, p3)) => if p3 < s.len() && s[p3] == (',' as u8) {
                            match spec_scan_uint(s, p3 + 1, u32::MAX as int) {
                                None => None,
                                Some((h, p4)) => if p4 == s.len() && w > 0 && h > 0 {
                                    Some((x, y, w, h))
                                } else {
                                    None
                                },
                            }
                        } else {
                            None
                        },
                    }
                } else {
                    None
                },
            }
        } else {
            None
        },
    }
}

/// The region segment: `"full" | "square" | "pct:" F,F,F,F | U,U,U+,U+`,
/// alternatives tried in that order.
pub open spec fn spec_parse_region(s: Seq<u8>) -> Option<Region> {
    if s == "full".spec_bytes() {
        Some(Region::Full)
    } else if s == "square".spec_bytes() {
        Some(Region::Square)
    } else if s.len() >= 4 && s.subrange(0, 4) == "pct:".spec_bytes() {
        match spec_parse_pct_quad(s, 4) {
            Some((x, y, w, h)) => Some(Region::Percent { x, y, w, h }),
            None => None,
        }
    } else {
        match spec_parse_int_quad(s, 0) {
            Some((x, y, w, h)) => Some(
                Region::Absolute { x: x as u32, y: y as u32, w: w as u32, h: h as u32 },
            ),
            None => None,
        }
    }
}

fn parse_pct_quad(seg: &[u8], from: usize) -> (r: Option<(Decimal, Decimal, Decimal, Decimal)>)
    requires
        from <= seg@.len(),
    ensures
        r == spec_parse_pct_quad(seg@, from as int),
        r matches Some((x, y, w, h)) ==> x.wf() && y.wf() && w.wf() && h.wf(),
{
    let (x, p1) = match scan_dec(seg, from) {
        None => {
            return None;
        },
        Some(v) => v,
    };
    if p1 == seg.len() || seg[p1] != (',' as u8) {
        return None;
    }
    let (y, p2) = match scan_dec(seg, p1 + 1) {
        None => {
            return None;
        },
        Some(v) => v,
    };
    if p2 == seg.len() || seg[p2] != (',' as u8) {
        return None;
    }
    let (w, p3) = match scan_dec(seg, p2 + 1) {
        None => {
            return None;
        },
        Some(v) => v,
    };
    if p3 == seg.len() || seg[p3] != (',' as u8) {
        return None;
    }
    let (h, p4) = match scan_dec(seg, p3 + 1) {
        None => {
            return None;
        },
        Some(v) => v,
    };
    if p4 != seg.len() {
        return None;
    }
    Some((x, y, w, h))
}

fn parse_int_quad(seg: &[u8], from: usize) -> (r: Option<(u32, u32, u32, u32)>)
    requires
        from <= seg@.len(),
    ensures
        match r {
            Some((x, y, w, h)) => spec_parse_int_quad(seg@, from as int) == Some(
                (x as int, y as int, w as int, h as int),
            ) && w > 0 && h > 0,
            None => spec_parse_int_quad(seg@, from as int) is None,
        },
{
    let max = u32::MAX as u64;
    let (x, p1) = match scan_uint(seg, from, max) {
        None => {
            return None;
        },
        Some(v) => v,
    };
    if p1 == seg.len() || seg[p1] != (',' as u8) {
        return None;
    }
    let (y, p2) = match scan_uint(seg, p1 + 1, max) {
        None => {
            return None;
        },
        Some(v) => v,
    };
    if p2 == seg.len() || seg[p2] != (',' as u8) {
        return None;
    }
    let (w, p3) = match scan_uint(seg, p2 + 1, max) {
        None => {
            return None;
        },
        Some(v) => v,
    };
    if p3 == seg.len() || seg[p3] != (',' as u8) {
        return None;
    }
    let (h, p4) = match scan_uint(seg, p3 + 1, max) {
        None => {
            return None;
        },
        Some(v) => v,
    };
    if p4 != seg.len() || w == 0 || h == 0 {
        return None;
    }
    Some((x as u32, y as u32, w as u32, h as u32))
}

/// Parse a full region segment.
pub fn parse_region(seg: &[u8]) -> (r: Result<Region, Error>)
    ensures
        (r is Ok) == (spec_parse_region(seg@) is Some),
        r matches Ok(reg) ==> Some(reg) == spec_parse_region(seg@) && reg.wf(),
        r matches Err(e) ==> e matches Error::Syntax { .. },
{
    proof {
        assert(seg@.subrange(0, seg@.len() as int) =~= seg@);
    }
    if tail_is(seg, 0, "full".as_bytes()) {
        return Ok(Region::Full);
    }
    if tail_is(seg, 0, "square".as_bytes()) {
        return Ok(Region::Square);
    }
    proof {
        lemma_pct_tok();
    }
    if starts_with_at(seg, 0, "pct:".as_bytes()) {
        match parse_pct_quad(seg, 4) {
            Some((x, y, w, h)) => Ok(Region::Percent { x, y, w, h }),
            None => Err(Error::Syntax { pos: 0, expected: Production::Region }),
        }
    } else {
        match parse_int_quad(seg, 0) {
            Some((x, y, w, h)) => Ok(Region::Absolute { x, y, w, h }),
            None => Err(Error::Syntax { pos: 0, expected: Production::Region }),
        }
    }
}

// ---------------------------------------------------------------------
// Size
// ---------------------------------------------------------------------

/// The optional `^` and `!` prefix flags, in either order, each at most
/// once: (allow_upscale, maintain_ratio, offset of the rest).
pub open spec fn spec_size_flags(s: Seq<u8>) -> (bool, bool, int) {
    if s.len() >= 2 && s[0] == ('^' as u8) && s[1] == ('!' as u8) {
        (true, true, 2)
    } else if s.len() >= 2 && s[0] == ('!' as u8) && s[1] == ('^' as u8) {
        (true, true, 2)
    } else if s.len() >= 1 && s[0] == ('^' as u8) {
        (true, false, 1)
    } else if s.len() >= 1 && s[0] == ('!' as u8) {
        (false, true, 1)
    } else {
        (false, false, 0)
    }
}

/// The size production after the flags, from `from` to the end:
/// `"max" | W,H | ,H | W, | "pct:" F`.
pub open spec fn spec_parse_sizekind(s: Seq<u8>, from: int) -> Option<SizeKind> {
    let t = s.subrange(from, s.len() as int);
    if t == "max".spec_bytes() {
        Some(SizeKind::Max)
    } else if s.len() >= from + 4 && s.subrange(from, from + 4) == "pct:".spec_bytes() {
        match spec_scan_dec(s, from + 4) {
            Some((d, end)) => if end == s.len() {
                Some(SizeKind::Percent(d))
            } else {
                None
            },
            None => None,
        }
    } else if from < s.len() && s[from] == (',' as u8) {
        match spec_scan_uint(s, from + 1, u32::MAX as int) {
            Some((h, end)) => if end == s.len() && h > 0 {
                Some(SizeKind::Height(h as u32))
            } else {
                None
            },
            None => None,
        }
    } else {
        match spec_scan_uint(s, from, u32::MAX as int) {
            None => None,
            Some((w, p)) => if p < s.len() && s[p] == (',' as u8) {
                if p + 1 == s.len() {
                    if w > 0 {
                        Some(SizeKind::Width(w as u32))
                    } else {
                        None
                    }
                } else {
                    match spec_scan_uint(s, p + 1, u32::MAX as int) {
                        Some((h, end)) => if end == s.len() && w > 0 && h > 0 {
                            Some(SizeKind::WidthHeight { w: w as u32, h: h as u32 })
                        } else {
                            None
                        },
                        None => None,
                    }
                }
            } else {
                None
            },
        }
    }
}

/// The full size segment: flags, then exactly one size form.
pub open spec fn spec_parse_size(s: Seq<u8>) -> Option<Size> {
    let (up, ratio, off) = spec_size_flags(s);
    match spec_parse_sizekind(s, off) {
        Some(kind) => Some(Size { allow_upscale: up, maintain_ratio: ratio, kind }),
        None => None,
    }
}

/// Parse a full size segment.
pub fn parse_size(seg: &[u8]) -> (r: Result<Size, Error>)
    ensures
        (r is Ok) == (spec_parse_size(seg@) is Some),
        r matches Ok(sz) ==> Some(sz) == spec_parse_size(seg@) && sz.wf(),
        r matches Err(e) ==> e matches Error::Syntax { .. },
{
    let n = seg.len();
    let (up, ratio, off): (bool, bool, usize) = if n >= 2 && seg[0] == ('^' as u8) && seg[1]
        == ('!' as u8) {
        (true, true, 2)
    } else if n >= 2 && seg[0] == ('!' as u8) && seg[1] == ('^' as u8) {
        (true, true, 2)
    } else if n >= 1 && seg[0] == ('^' as u8) {
        (true, false, 1)
    } else if n >= 1 && seg[0] == ('!' as u8) {
        (false, true, 1)
    } else {
        (false, false, 0)
    };
    proof {
        assert(spec_size_flags(seg@) == (up, ratio, off as int));
    }
    match parse_sizekind(seg, off) {
        Some(kind) => Ok(Size { allow_upscale: up, maintain_ratio: ratio, kind }),
        None => Err(Error::Syntax { pos: 0, expected: Production::Size }),
    }
}

fn parse_sizekind(seg: &[u8], from: usize) -> (r: Option<SizeKind>)
    requires
        from <= seg@.len(),
    ensures
        r == spec_parse_sizekind(seg@, from as int),
        r matches Some(k) ==> k.wf(),
{
    let n = seg.len();
    let max = u32::MAX as u64;
    if tail_is(seg, from, "max".as_bytes()) {
        return Some(SizeKind::Max);
    }
    proof {
        lemma_pct_tok();
    }
    if starts_with_at(seg, from, "pct:".as_bytes()) {
        assert(from + 4 <= n);
        return match scan_dec(seg, from + 4) {
            Some((d, end)) => if end == seg.len() {
                Some(SizeKind::Percent(d))
            } else {
                None
            },
            None => None,
        };
    }
    if from < seg.len() && seg[from] == (',' as u8) {
        return match scan_uint(seg, from + 1, max) {
            Some((h, end)) => if end == seg.len() && h > 0 {
                Some(SizeKind::Height(h as u32))
            } else {
                None
            },
            None => None,
        };
    }
    match scan_uint(seg, from, max) {
        None => None,
        Some((w, p)) => if p < seg.len() && seg[p] == (',' as u8) {
            if p + 1 == seg.len() {
                if w > 0 {
                    Some(SizeKind::Width(w as u32))
                } else {
                    None
                }
            } else {
                match scan_uint(seg, p + 1, max) {
                    Some((h, end)) => if end == seg.len() && w > 0 && h > 0 {
                        Some(SizeKind::WidthHeight { w: w as u32, h: h as u32 })
                    } else {
                        None
                    },
                    None => None,
                }
            }
        } else {
            None
        },
    }
}

// ---------------------------------------------------------------------
// Rotation
// ---------------------------------------------------------------------

/// The rotation segment: an optional leading `!` (mirror), then exactly
/// one of the literal tokens `0`, `90`, `180`, `270`, `360`; `360`
/// normalizes to 0 degrees.
pub open spec fn spec_parse_rotation(s: Seq<u8>) -> Option<Rotation> {
    let mirror = s.len() >= 1 && s[0] == ('!' as u8);
    let off: int = if mirror {
        1
    } else {
        0
    };
    let t = s.subrange(off, s.len() as int);
    if t == "0".spec_bytes() || t == "360".spec_bytes() {
        Some(Rotation { deg: RotationDeg::Deg0, mirror })
    } else if t == "90".spec_bytes() {
        Some(Rotation { deg: RotationDeg::Deg90, mirror })
    } else if t == "180".spec_bytes() {
        Some(Rotation { deg: RotationDeg::Deg180, mirror })
    } else if t == "270".spec_bytes() {
        Some(Rotation { deg: RotationDeg::Deg270, mirror })
    } else {
        None
    }
}

/// Parse a full rotation segment.
pub fn parse_rotation(seg: &[u8]) -> (r: Result<Rotation, Error>)
    ensures
        (r is Ok) == (spec_parse_rotation(seg@) is Some),
        r matches Ok(rot) ==> Some(rot) == spec_parse_rotation(seg@),
        r matches Err(e) ==> e matches Error::Syntax { .. },
{
    let mirror = seg.len() >= 1 && seg[0] == ('!' as u8);
    let off: usize = if mirror {
        1
    } else {
        0
    };
    if tail_is(seg, off, "0".as_bytes()) || tail_is(seg, off, "360".as_bytes()) {
        Ok(Rotation { deg: RotationDeg::Deg0, mirror })
    } else if tail_is(seg, off, "90".as_bytes()) {
        Ok(Rotation { deg: RotationDeg::Deg90, mirror })
    } else if tail_is(seg, off, "180".as_bytes()) {
        Ok(Rotation { deg: RotationDeg::Deg180, mirror })
    } else if tail_is(seg, off, "270".as_bytes()) {
        Ok(Rotation { deg: RotationDeg::Deg270, mirror })
    } else {
        Err(Error::Syntax { pos: 0, expected: Production::Rotation })
    }
}

// ---------------------------------------------------------------------
// Quality and format
// ---------------------------------------------------------------------

/// Which quality token prefixes the final segment, and its length.
pub open spec fn spec_quality_prefix(t: Seq<u8>) -> Option<(Quality, int)> {
    if t.len() >= 5 && t.subrange(0, 5) == "color".spec_bytes() {
        Some((Quality::Color, 5))
    } else if t.len() >= 4 && t.subrange(0, 4) == "gray".spec_bytes() {
        Some((Quality::Gray, 4))
    } else if t.len() >= 7 && t.subrange(0, 7) == "bitonal".spec_bytes() {
        Some((Quality::Bitonal, 7))
    } else if t.len() >= 7 && t.subrange(0, 7) == "default".spec_bytes() {
        Some((Quality::Default, 7))
    } else {
        None
    }
}

/// The final segment: a quality token, a literal `.`, then a format
/// token resolved against the codec registry.
pub open spec fn spec_parse_quality_format(t: Seq<u8>) -> Option<(Quality, Format)> {
    match spec_quality_prefix(t) {
        None => None,
        Some((q, k)) => if k < t.len() && t[k] == ('.' as u8) {
            match spec_parse_format(t.subrange(k + 1, t.len() as int)) {
                Some(f) => Some((q, f)),
                None => None,
            }
        } else {
            None
        },
    }
}

/// The quality production as a whole segment (exact token match).
pub open spec fn spec_parse_quality(s: Seq<u8>) -> Option<Quality> {
    if s == "color".spec_bytes() {
        Some(Quality::Color)
    } else if s == "gray".spec_bytes() {
        Some(Quality::Gray)
    } else if s == "bitonal".spec_bytes() {
        Some(Quality::Bitonal)
    } else if s == "default".spec_bytes() {
        Some(Quality::Default)
    } else {
        None
    }
}

/// Parse a quality token standing alone.
pub fn parse_quality(seg: &[u8]) -> (r: Result<Quality, Error>)
    ensures
        (r is Ok) == (spec_parse_quality(seg@) is Some),
        r matches Ok(q) ==> Some(q) == spec_parse_quality(seg@),
        r matches Err(e) ==> e matches Error::Syntax { .. },
{
    proof {
        assert(seg@.subrange(0, seg@.len() as int) =~= seg@);
    }
    if tail_is(seg, 0, "color".as_bytes()) {
        Ok(Quality::Color)
    } else if tail_is(seg, 0, "gray".as_bytes()) {
        Ok(Quality::Gray)
    } else if tail_is(seg, 0, "bitonal".as_bytes()) {
        Ok(Quality::Bitonal)
    } else if tail_is(seg, 0, "default".as_bytes()) {
        Ok(Quality::Default)
    } else {
        Err(Error::Syntax { pos: 0, expected: Production::Quality })
    }
}

fn quality_prefix(t: &[u8]) -> (r: Option<(Quality, usize)>)
    ensures
        match r {
            Some((q, k)) => spec_quality_prefix(t@) == Some((q, k as int)) && k <= t@.len(),
            None => spec_quality_prefix(t@) is None,
        },
{
    proof {
        lemma_quality_toks();
    }
    if starts_with_at(t, 0, "color".as_bytes()) {
        Some((Quality::Color, 5))
    } else if starts_with_at(t, 0, "gray".as_bytes()) {
        Some((Quality::Gray, 4))
    } else if starts_with_at(t, 0, "bitonal".as_bytes()) {
        Some((Quality::Bitonal, 7))
    } else if starts_with_at(t, 0, "default".as_bytes()) {
        Some((Quality::Default, 7))
    } else {
        None
    }
}

fn parse_quality_format(t: &[u8]) -> (r: Option<(Quality, Format)>)
    ensures
        r == spec_parse_quality_format(t@),
{
    match quality_prefix(t) {
        None => None,
        Some((q, k)) => {
            if k < t.len() && t[k] == ('.' as u8) {
                let ext = slice_subrange(t, k + 1, t.len());
                match parse_format(ext) {
                    Ok(f) => Some((q, f)),
                    Err(_) => None,
                }
            } else {
                None
            }
        },
    }
}

// ---------------------------------------------------------------------
// The full request
// ---------------------------------------------------------------------

/// The first position at or after `from` holding a `/` (`s.len()` if
/// none).
pub open spec fn seg_end(s: Seq<u8>, from: int) -> int
    decreases s.len() - from,
{
    if from < 0 || from >= s.len() {
        s.len() as int
    } else if s[from] == ('/' as u8) {
        from
    } else {
        seg_end(s, from + 1)
    }
}

pub proof fn lemma_seg_end(s: Seq<u8>, from: int)
    requires
        0 <= from <= s.len(),
    ensures
        from <= seg_end(s, from) <= s.len(),
        forall|j: int| from <= j < seg_end(s, from) ==> s[j] != ('/' as u8),
        seg_end(s, from) < s.len() ==> s[seg_end(s, from)] == ('/' as u8),
    decreases s.len() - from,
{
    if from < s.len() && s[from] != ('/' as u8) {
        lemma_seg_end(s, from + 1);
    }
}

proof fn lemma_seg_end_split(s: Seq<u8>, from: int, mid: int)
    requires
        0 <= from <= mid <= s.len(),
        forall|j: int| from <= j < mid ==> s[j] != ('/' as u8),
    ensures
        seg_end(s, from) == seg_end(s, mid),
    decreases mid - from,
{
    if from < mid {
        lemma_seg_end_split(s, from + 1, mid);
    }
}

fn find_slash(s: &[u8], from: usize) -> (r: usize)
    requires
        from <= s@.len(),
    ensures
        r == seg_end(s@, from as int),
        from <= r <= s@.len(),
{
    proof {
        lemma_seg_end(s@, from as int);
    }
    let mut i: usize = from;
    while i < s.len() && s[i] != ('/' as u8)
        invariant
            from <= i <= s@.len(),
            forall|j: int| from <= j < i ==> s@[j] != ('/' as u8),
        decreases s@.len() - i,
    {
        i = i + 1;
    }
    proof {
        lemma_seg_end_split(s@, from as int, i as int);
    }
    i
}

/// The abstract parse of a full request path: the identifier's bytes
/// and the five parsed productions, or `None` if any part fails.
pub open spec fn spec_parse_request(s: Seq<u8>) -> Option<
    (Seq<u8>, Region, Size, Rotation, Quality, Format),
> {
    let p1 = seg_end(s, 0);
    if p1 == 0 || p1 >= s.len() {
        None
    } else {
        let p2 = seg_end(s, p1 + 1);
        if p2 >= s.len() {
            None
        } else {
            let p3 = seg_end(s, p2 + 1);
            if p3 >= s.len() {
                None
            } else {
                let p4 = seg_end(s, p3 + 1);
                if p4 >= s.len() {
                    None
                } else if seg_end(s, p4 + 1) != s.len() {
                    None
                } else {
                    let region = spec_parse_region(s.subrange(p1 + 1, p2));
                    let size = spec_parse_size(s.subrange(p2 + 1, p3));
                    let rotation = spec_parse_rotation(s.subrange(p3 + 1, p4));
                    let qf = spec_parse_quality_format(s.subrange(p4 + 1, s.len() as int));
                    if region is Some && size is Some && rotation is Some && qf is Some {
                        Some(
                            (
                                s.subrange(0, p1),
                                region.unwrap(),
                                size.unwrap(),
                                rotation.unwrap(),
                                qf.unwrap().0,
                                qf.unwrap().1,
                            ),
                        )
                    } else {
                        None
                    }
                }
            }
        }
    }
}

/// Parse a full request path `identifier/region/size/rotation/quality.format`.
pub fn parse_image_request(s: &[u8]) -> (r: Result<ImageRequest, Error>)
    ensures
        (r is Ok) == (spec_parse_request(s@) is Some),
        r matches Ok(req) ==> {
            let t = spec_parse_request(s@).unwrap();
            &&& req.identifier@ == t.0
            &&& req.region == t.1
            &&& req.size == t.2
            &&& req.rotation == t.3
            &&& req.quality == t.4
            &&& req.format == t.5
            &&& req.wf()
            &&& req.identifier@.len() > 0
            &&& forall|j: int|
                0 <= j < req.identifier@.len() ==> req.identifier@[j] != ('/' as u8)
        },
        r matches Err(e) ==> e matches Error::Syntax { .. },
{
    let n = s.len();
    let p1 = find_slash(s, 0);
    if p1 == 0 || p1 == n {
        return Err(Error::Syntax { pos: 0, expected: Production::Identifier });
    }
    let p2 = find_slash(s, p1 + 1);
    if p2 == n {
        return Err(Error::Syntax { pos: p1 + 1, expected: Production::Separator });
    }
    let p3 = find_slash(s, p2 + 1);
    if p3 == n {
        return Err(Error::Syntax { pos: p2 + 1, expected: Production::Separator });
    }
    let p4 = find_slash(s, p3 + 1);
    if p4 == n {
        return Err(Error::Syntax { pos: p3 + 1, expected: Production::Separator });
    }
    let p5 = find_slash(s, p4 + 1);
    if p5 != n {
        return Err(Error::Syntax { pos: p4 + 1, expected: Production::Quality });
    }
    let region = match parse_region(slice_subrange(s, p1 + 1, p2)) {
        Ok(v) => v,
        Err(_) => {
            return Err(Error::Syntax { pos: p1 + 1, expected: Production::Region });
        },
    };
    let size = match parse_size(slice_subrange(s, p2 + 1, p3)) {
        Ok(v) => v,
        Err(_) => {
            return Err(Error::Syntax { pos: p2 + 1, expected: Production::Size });
        },
    };
    let rotation = match parse_rotation(slice_subrange(s, p3 + 1, p4)) {
        Ok(v) => v,
        Err(_) => {
            return Err(Error::Syntax { pos: p3 + 1, expected: Production::Rotation });
        },
    };
    let (quality, format) = match parse_quality_format(slice_subrange(s, p4 + 1, n)) {
        Some(v) => v,
        None => {
            return Err(Error::Syntax { pos: p4 + 1, expected: Production::Quality });
        },
    };
    let identifier = slice_to_vec(slice_subrange(s, 0, p1));
    proof {
        lemma_seg_end(s@, 0);
    }
    Ok(ImageRequest { identifier, region, size, rotation, quality, format })
}

// ---------------------------------------------------------------------
// Encoding absolute regions
// ---------------------------------------------------------------------

/// A single comma, as segment glue.
pub open spec fn comma() -> Seq<u8> {
    seq![(',' as u8)]
}

/// The grammar text of an absolute region: `x,y,w,h` in decimal.
pub open spec fn spec_encode_absolute(x: int, y: int, w: int, h: int) -> Seq<u8> {
    uint_str(x) + comma() + uint_str(y) + comma() + uint_str(w) + comma() + uint_str(h)
}

/// Write an absolute region out as a region segment.
pub fn encode_absolute(x: u32, y: u32, w: u32, h: u32) -> (r: Vec<u8>)
    ensures
        r@ == spec_encode_absolute(x as int, y as int, w as int, h as int),
{
    let mut out = u32_digits(x);
    out.push(',' as u8);
    append_digits(&mut out, y);
    out.push(',' as u8);
    append_digits(&mut out, w);
    out.push(',' as u8);
    append_digits(&mut out, h);
    proof {
        assert(out@ =~= spec_encode_absolute(x as int, y as int, w as int, h as int));
    }
    out
}

fn append_digits(out: &mut Vec<u8>, n: u32)
    ensures
        final(out)@ == old(out)@ + uint_str(n as int),
{
    let d = u32_digits(n);
    let mut i: usize = 0;
    while i < d.len()
        invariant
            0 <= i <= d@.len(),
            d@ == uint_str(n as int),
            out@ == old(out)@ + d@.subrange(0, i as int),
        decreases d@.len() - i,
    {
        out.push(d[i]);
        proof {
            assert(old(out)@ + d@.subrange(0, i + 1) =~= (old(out)@ + d@.subrange(
                0,
                i as int,
            )).push(d@[i as int]));
        }
        i = i + 1;
    }
    proof {
        assert(d@.subrange(0, d@.len() as int) =~= d@);
    }
}

/// One number of the encoded quad scans back to itself: the bytes at
/// `at` are its digit string, ended by a non-digit or the end.
proof fn lemma_scan_number_at(s: Seq<u8>, at: int, n: int)
    requires
        0 <= n <= u32::MAX,
        0 <= at,
        at + uint_str(n).len() <= s.len(),
        forall|j: int| at <= j < at + uint_str(n).len() ==> s[j] == uint_str(n)[j - at],
        at + uint_str(n).len() == s.len() || !is_digit(s[at + uint_str(n).len()]),
    ensures
        spec_scan_uint(s, at, u32::MAX as int) == Some((n, at + uint_str(n).len())),
{
    lemma_uint_str_digits(n);
    let e = at + uint_str(n).len();
    assert forall|j: int| at <= j < e implies is_digit(#[trigger] s[j]) by {
        assert(s[j] == uint_str(n)[j - at]);
    };
    lemma_digits_end_at(s, at, e);
    assert(s.subrange(at, e) =~= uint_str(n));
    lemma_uint_val_uint_str(n);
}

/// How the pieces of an encoded quad sit inside the concatenation.
proof fn lemma_quad_layout(a: Seq<u8>, b: Seq<u8>, c: Seq<u8>, d: Seq<u8>)
    ensures
        ({
            let s = a + comma() + b + comma() + c + comma() + d;
            let p1 = a.len() as int;
            let p2 = a.len() + 1 + b.len() as int;
            let p3 = a.len() + 1 + b.len() + 1 + c.len() as int;
            &&& s.len() == a.len() + b.len() + c.len() + d.len() + 3
            &&& forall|j: int| 0 <= j < a.len() ==> s[j] == a[j]
            &&& s[p1] == (',' as u8)
            &&& forall|j: int| p1 + 1 <= j < p2 ==> s[j] == b[j - (p1 + 1)]
            &&& s[p2] == (',' as u8)
            &&& forall|j: int| p2 + 1 <= j < p3 ==> s[j] == c[j - (p2 + 1)]
            &&& s[p3] == (',' as u8)
            &&& forall|j: int| p3 + 1 <= j < s.len() ==> s[j] == d[j - (p3 + 1)]
        }),
{
}

/// An encoded quad scans back to its four numbers.
proof fn lemma_encoded_quad_scans(x: u32, y: u32, w: u32, h: u32)
    ensures
        spec_parse_int_quad(
            spec_encode_absolute(x as int, y as int, w as int, h as int),
            0,
        ) == (if w > 0 && h > 0 {
            Some((x as int, y as int, w as int, h as int))
        } else {
            Option::<(int, int, int, int)>::None
        }),
{
    let s = spec_encode_absolute(x as int, y as int, w as int, h as int);
    let a = uint_str(x as int);
    let b = uint_str(y as int);
    let c = uint_str(w as int);
    let d = uint_str(h as int);
    lemma_uint_str_digits(x as int);
    lemma_uint_str_digits(y as int);
    lemma_uint_str_digits(w as int);
    lemma_uint_str_digits(h as int);
    let p1 = a.len() as int;
    let p2 = a.len() + 1 + b.len() as int;
    let p3 = a.len() + 1 + b.len() + 1 + c.len() as int;
    lemma_quad_layout(a, b, c, d);
    assert(s == a + comma() + b + comma() + c + comma() + d);
    lemma_scan_number_at(s, 0, x as int);
    lemma_scan_number_at(s, p1 + 1, y as int);
    lemma_scan_number_at(s, p2 + 1, w as int);
    lemma_scan_number_at(s, p3 + 1, h as int);
}

/// An encoded quad starts with a digit, so it matches no keyword and
/// no percent form.
proof fn lemma_encoded_quad_is_no_keyword(x: u32, y: u32, w: u32, h: u32)
    ensures
        ({
            let s = spec_encode_absolute(x as int, y as int, w as int, h as int);
            &&& s != "full".spec_bytes()
            &&& s != "square".spec_bytes()
            &&& !(s.len() >= 4 && s.subrange(0, 4) == "pct:".spec_bytes())
        }),
{
    let s = spec_encode_absolute(x as int, y as int, w as int, h as int);
    let a = uint_str(x as int);
    lemma_uint_str_digits(x as int);
    assert(is_digit(s[0])) by {
        assert(s[0] == a[0]);
    };
    lemma_region_toks();
    assert(s != "full".spec_bytes()) by {
        if s == "full".spec_bytes() {
            assert(s[0] == ('f' as u8));
        }
    };
    assert(s != "square".spec_bytes()) by {
        if s == "square".spec_bytes() {
            assert(s[0] == ('s' as u8));
        }
    };
    lemma_pct_tok();
    assert(!(s.len() >= 4 && s.subrange(0, 4) == "pct:".spec_bytes())) by {
        if s.len() >= 4 && s.subrange(0, 4) == "pct:".spec_bytes() {
            assert(s.subrange(0, 4)[0] == ('p' as u8));
            assert(s[0] == ('p' as u8));
        }
    };
}

/// Law: an absolute region round-trips through the grammar. Writing
/// `x,y,w,h` out in decimal and parsing the segment back yields the
/// same structure, for every `x`, `y` and strictly positive `w`, `h`.
pub proof fn lemma_region_round_trip(x: u32, y: u32, w: u32, h: u32)
    requires
        w > 0,
        h > 0,
    ensures
        spec_parse_region(spec_encode_absolute(x as int, y as int, w as int, h as int))
            == Some(Region::Absolute { x, y, w, h }),
{
    lemma_encoded_quad_is_no_keyword(x, y, w, h);
    lemma_encoded_quad_scans(x, y, w, h);
}

// ---------------------------------------------------------------------
// Token contents
// ---------------------------------------------------------------------

/// The byte contents of the `pct:` prefix token.
pub proof fn lemma_pct_tok()
    ensures
        "pct:".spec_bytes() =~= seq![
            'p' as u8,
            'c' as u8,
            't' as u8,
            ':' as u8,
        ],
{
    broadcast use vstd::utf8::is_ascii_chars_encode_utf8;

    reveal_strlit("pct:");
    assert(vstd::utf8::is_ascii_chars("pct:"@));
}

/// The byte contents of the four quality tokens.
pub proof fn lemma_quality_toks()
    ensures
        "color".spec_bytes().len() == 5,
        "gray".spec_bytes().len() == 4,
        "bitonal".spec_bytes().len() == 7,
        "default".spec_bytes().len() == 7,
{
    broadcast use vstd::utf8::is_ascii_chars_encode_utf8;

    reveal_strlit("color");
    reveal_strlit("gray");
    reveal_strlit("bitonal");
    reveal_strlit("default");
    assert(vstd::utf8::is_ascii_chars("color"@));
    assert(vstd::utf8::is_ascii_chars("gray"@));
    assert(vstd::utf8::is_ascii_chars("bitonal"@));
    assert(vstd::utf8::is_ascii_chars("default"@));
}

/// The byte contents of the `full` and `square` region tokens.
pub proof fn lemma_region_toks()
    ensures
        "full".spec_bytes() =~= seq![
            'f' as u8,
            'u' as u8,
            'l' as u8,
            'l' as u8,
        ],
        "square".spec_bytes() =~= seq![
            's' as u8,
            'q' as u8,
            'u' as u8,
            'a' as u8,
            'r' as u8,
            'e' as u8,
        ],
{
    broadcast use vstd::utf8::is_ascii_chars_encode_utf8;

    reveal_strlit("full");
    reveal_strlit("square");
    assert(vstd::utf8::is_ascii_chars("full"@));
    assert(vstd::utf8::is_ascii_chars("square"@));
}

} // verus!
