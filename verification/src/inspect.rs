//! What is read out of `gdalinfo -json` for a source raster: its size, bands, tiling,
//! overviews, CRS code and name, and the notes shown to the user. The JSON itself is
//! parsed by the caller; the coordinates (floating point) stay with it.

use vstd::prelude::*;
use crate::errors::TilerError;
use crate::text::{
    chars_of, contains_seq, contains_str, lower_seq, lower_vec, opt_view, parse_uint,
    parse_uint_vec, push_arg, string_views,
};

verus! {

// ---------------------------------------------------------------------------
// CRS code and name from WKT
// ---------------------------------------------------------------------------

/// Name for what the `(?:ID|AUTHORITY)\s*\[\s*"EPSG"\s*,\s*"?(\d+)"?\s*\]` search gives
/// on a WKT string: the digits of every EPSG authority entry, in order.
pub uninterp spec fn epsg_id_captures(wkt: Seq<char>) -> Seq<Seq<char>>;

/// Name for what the `(?:PROJCRS|GEOGCRS|PROJCS|GEOGCS)\s*\[\s*"([^"]+)"` search gives on
/// a WKT string: the quoted name after the first CRS keyword, if any.
pub uninterp spec fn crs_name_capture(wkt: Seq<char>) -> Option<Seq<char>>;

/// `Regex::captures_iter` with the EPSG authority pattern: the first group of every
/// match, in order, named `epsg_id_captures`.
#[verifier::external_body]
fn epsg_ids(wkt: &str) -> (r: Vec<String>)
    ensures
        string_views(r@) == epsg_id_captures(wkt@),
{
    match regex::Regex::new("(?:ID|AUTHORITY)\\s*\\[\\s*\"EPSG\"\\s*,\\s*\"?(\\d+)\"?\\s*\\]") {
        Ok(re) => re.captures_iter(wkt).map(
            |c| c.get(1).map_or(String::new(), |m| m.as_str().to_string()),
        ).collect(),
        Err(_) => Vec::new(),
    }
}

/// `Regex::captures` with the CRS name pattern: the first group of the first match,
/// named `crs_name_capture`.
#[verifier::external_body]
fn crs_name_group(wkt: &str) -> (r: Option<String>)
    ensures
        opt_view(r) == crs_name_capture(wkt@),
{
    match regex::Regex::new("(?:PROJCRS|GEOGCRS|PROJCS|GEOGCS)\\s*\\[\\s*\"([^\"]+)\"") {
        Ok(re) => re.captures(wkt).and_then(|c| c.get(1)).map(|m| m.as_str().to_string()),
        Err(_) => None,
    }
}

/// The last of the codes that parses as a 32-bit unsigned number: the outermost
/// authority of a WKT is the CRS itself.
pub open spec fn last_code(caps: Seq<Seq<char>>) -> Option<nat>
    decreases caps.len(),
{
    if caps.len() == 0 {
        None
    } else {
        match parse_uint(caps.last(), u32::MAX as nat) {
            Some(v) => Some(v),
            None => last_code(caps.drop_last()),
        }
    }
}

/// The EPSG code among the captured authority codes.
pub fn epsg_from_captures(caps: &Vec<String>) -> (r: Option<u32>)
    ensures
        r is None <==> last_code(string_views(caps@)) is None,
        r matches Some(v) ==> last_code(string_views(caps@)) == Some(v as nat),
{
    let ghost cv = string_views(caps@);
    let mut i = caps.len();
    assert(cv.take(i as int) =~= cv);
    while i > 0
        invariant
            i <= caps@.len(),
            cv == string_views(caps@),
            last_code(cv) == last_code(cv.take(i as int)),
        decreases i,
    {
        let c = chars_of(caps[i - 1].as_str());
        assert(cv.take(i as int).last() == caps@[i - 1]@);
        assert(cv.take(i as int).drop_last() =~= cv.take(i - 1));
        match parse_uint_vec(&c, 0xffff_ffff) {
            Some(v) => {
                return Some(v as u32);
            },
            None => {},
        }
        i = i - 1;
    }
    None
}

/// The EPSG code of a WKT CRS: the last authority code in it.
pub fn parse_epsg(wkt: &str) -> (r: Option<u32>)
    ensures
        r is None <==> last_code(epsg_id_captures(wkt@)) is None,
        r matches Some(v) ==> last_code(epsg_id_captures(wkt@)) == Some(v as nat),
{
    let caps = epsg_ids(wkt);
    epsg_from_captures(&caps)
}

/// The name of a WKT CRS: the first quoted name after a CRS keyword.
pub fn parse_crs_name(wkt: &str) -> (r: Option<String>)
    ensures
        opt_view(r) == crs_name_capture(wkt@),
{
    crs_name_group(wkt)
}

// ---------------------------------------------------------------------------
// raster facts
// ---------------------------------------------------------------------------

/// What one entry of `bands` says.
pub struct BandFacts {
    /// `colorInterpretation`, when it is a string.
    pub color_interp: Option<String>,
    /// The length of `overviews`, when it is an array.
    pub overviews: Option<usize>,
    /// The first entry of `block`, when it is an unsigned number.
    pub block_x: Option<u64>,
}

/// What the parts of `gdalinfo -json` read here say.
pub struct GdalInfoFacts {
    /// `size`, when it is an array: each entry as an unsigned number, if it is one.
    pub size: Option<Vec<Option<u64>>>,
    /// `driverShortName`, when it is a string.
    pub driver: Option<String>,
    /// `bands`, when it is an array (else none).
    pub bands: Vec<BandFacts>,
    /// `coordinateSystem.wkt`, when it is a string.
    pub wkt: Option<String>,
}

/// What is learned of a raster from its `gdalinfo` output (coordinates aside).
pub struct RasterFacts {
    pub width: u32,
    pub height: u32,
    pub driver: String,
    pub band_count: u32,
    pub has_alpha: bool,
    pub has_overviews: bool,
    pub is_tiled: bool,
    pub epsg: Option<u32>,
    pub crs_name: Option<String>,
    pub is_geographic: bool,
    pub notes: Vec<String>,
}

/// A band whose colour interpretation is `Alpha` (any case).
pub open spec fn band_is_alpha(b: BandFacts) -> bool {
    match b.color_interp {
        Some(c) => lower_seq(c@) == lower_seq("Alpha"@),
        None => false,
    }
}

/// A band with a non-empty overview list.
pub open spec fn band_has_overviews(b: BandFacts) -> bool {
    match b.overviews {
        Some(n) => n > 0,
        None => false,
    }
}

/// A CRS is geographic when its WKT is not empty and names no projected CRS.
pub open spec fn wkt_is_geographic(wkt: Seq<char>) -> bool {
    !contains_seq(wkt, "PROJCRS"@) && !contains_seq(wkt, "PROJCS"@) && wkt.len() > 0
}

/// Law: a WKT in which a projected-CRS keyword starts at some position (`PROJCS`, as
/// WKT1 writes it, or `PROJCRS`, as WKT2 writes it) is never classified as geographic,
/// so its pixel size is taken to be in the projection's own units.
pub proof fn projected_wkt_is_never_geographic(wkt: Seq<char>, i: int)
    requires
        0 <= i,
        (i + 6 <= wkt.len() && wkt.subrange(i, i + 6) == "PROJCS"@) || (i + 7 <= wkt.len()
            && wkt.subrange(i, i + 7) == "PROJCRS"@),
    ensures
        !wkt_is_geographic(wkt),
{
    reveal_strlit("PROJCS");
    reveal_strlit("PROJCRS");
    if i + 6 <= wkt.len() && wkt.subrange(i, i + 6) == "PROJCS"@ {
        assert(crate::text::occurs_at(wkt, "PROJCS"@, i));
    } else {
        assert(crate::text::occurs_at(wkt, "PROJCRS"@, i));
    }
}

/// The note on a striped (not internally tiled) raster.
pub open spec fn striped_note() -> Seq<char> {
    "Striped GeoTIFF (not internally tiled). Fine for generation; Martin's on-the-fly COG reader would reject it."@
}

/// The note on a raster without overviews.
pub open spec fn no_overviews_note() -> Seq<char> {
    "No internal overviews/pyramids; lower zooms are built during tiling."@
}

/// The note on a raster without an EPSG code.
pub open spec fn no_epsg_note() -> Seq<char> {
    "Could not determine an EPSG code; reprojection relies on the embedded WKT."@
}

/// The notes on a raster, in order.
pub open spec fn raster_notes(is_tiled: bool, has_overviews: bool, has_epsg: bool) -> Seq<Seq<char>> {
    (if !is_tiled {
        seq![striped_note()]
    } else {
        Seq::empty()
    }) + (if !has_overviews {
        seq![no_overviews_note()]
    } else {
        Seq::empty()
    }) + (if !has_epsg {
        seq![no_epsg_note()]
    } else {
        Seq::empty()
    })
}

/// The refusal of `gdalinfo` output without a usable `size`.
pub open spec fn missing_size() -> Seq<char> {
    "missing `size`"@
}

/// The facts of a raster from its `gdalinfo` output: the size must be an array of two
/// entries (a non-number reads as 0, and each is cut to 32 bits); the driver defaults to
/// `unknown`; the raster is tiled when the first band's block is narrower than the image;
/// the CRS code and name come from the WKT.
pub fn raster_facts(f: &GdalInfoFacts) -> (r: Result<RasterFacts, String>)
    ensures
        match f.size {
            Some(s) if s@.len() == 2 => r matches Ok(x) && {
                let w = match s@[0] {
                    Some(v) => v as u32,
                    None => 0u32,
                };
                let h = match s@[1] {
                    Some(v) => v as u32,
                    None => 0u32,
                };
                let wkt = match f.wkt {
                    Some(t) => t@,
                    None => Seq::<char>::empty(),
                };
                let block: u32 = if f.bands@.len() > 0 && f.bands@[0].block_x is Some {
                    f.bands@[0].block_x->0 as u32
                } else {
                    w
                };
                &&& x.width == w
                &&& x.height == h
                &&& x.driver@ == match f.driver {
                    Some(d) => d@,
                    None => "unknown"@,
                }
                &&& x.band_count == f.bands@.len() as u32
                &&& x.has_alpha == exists|i: int|
                    0 <= i < f.bands@.len() && band_is_alpha(#[trigger] f.bands@[i])
                &&& x.has_overviews == exists|i: int|
                    0 <= i < f.bands@.len() && band_has_overviews(#[trigger] f.bands@[i])
                &&& x.is_tiled == (block < w)
                &&& (x.epsg is None <==> last_code(epsg_id_captures(wkt)) is None)
                &&& (x.epsg matches Some(v) ==> last_code(epsg_id_captures(wkt)) == Some(v as nat))
                &&& opt_view(x.crs_name) == crs_name_capture(wkt)
                &&& x.is_geographic == wkt_is_geographic(wkt)
                &&& string_views(x.notes@) == raster_notes(x.is_tiled, x.has_overviews, x.epsg is Some)
            },
            _ => r matches Err(e) && e@ == missing_size(),
        },
{
    let (width, height) = match &f.size {
        Some(s) if s.len() == 2 => {
            let w: u32 = match s[0] {
                Some(v) => v as u32,
                None => 0,
            };
            let h: u32 = match s[1] {
                Some(v) => v as u32,
                None => 0,
            };
            (w, h)
        },
        _ => {
            proof {
                reveal_strlit("missing `size`");
            }
            return Err("missing `size`".to_string());
        },
    };
    let driver = match &f.driver {
        Some(d) => d.clone(),
        None => {
            proof {
                reveal_strlit("unknown");
            }
            "unknown".to_string()
        },
    };
    let band_count = f.bands.len() as u32;
    let alpha = chars_of("Alpha");
    let la = lower_vec(&alpha);
    proof {
        reveal_strlit("Alpha");
    }
    let mut has_alpha = false;
    let mut has_overviews = false;
    let mut i: usize = 0;
    while i < f.bands.len()
        invariant
            i <= f.bands@.len(),
            la@ == lower_seq("Alpha"@),
            has_alpha == exists|k: int| 0 <= k < i && band_is_alpha(#[trigger] f.bands@[k]),
            has_overviews == exists|k: int|
                0 <= k < i && band_has_overviews(#[trigger] f.bands@[k]),
        decreases f.bands.len() - i,
    {
        let b = &f.bands[i];
        let a = match &b.color_interp {
            Some(c) => {
                let lc = lower_vec(&chars_of(c.as_str()));
                crate::decimal::eq_chars(&lc, &la)
            },
            None => false,
        };
        let o = match b.overviews {
            Some(n) => n > 0,
            None => false,
        };
        assert(a == band_is_alpha(f.bands@[i as int]));
        assert(o == band_has_overviews(f.bands@[i as int]));
        has_alpha = has_alpha || a;
        has_overviews = has_overviews || o;
        i = i + 1;
    }
    let block: u32 = if f.bands.len() > 0 {
        match f.bands[0].block_x {
            Some(v) => v as u32,
            None => width,
        }
    } else {
        width
    };
    let is_tiled = block < width;
    let wkt: String = match &f.wkt {
        Some(t) => t.clone(),
        None => String::new(),
    };
    let epsg = parse_epsg(wkt.as_str());
    let crs_name = parse_crs_name(wkt.as_str());
    let wv = chars_of(wkt.as_str());
    proof {
        reveal_strlit("PROJCRS");
        reveal_strlit("PROJCS");
    }
    let is_geographic = !contains_str(&wv, "PROJCRS") && !contains_str(&wv, "PROJCS") && wv.len()
        > 0;
    let mut notes: Vec<String> = Vec::new();
    if !is_tiled {
        push_arg(
            &mut notes,
            "Striped GeoTIFF (not internally tiled). Fine for generation; Martin's on-the-fly COG reader would reject it.",
        );
    }
    if !has_overviews {
        push_arg(&mut notes, "No internal overviews/pyramids; lower zooms are built during tiling.");
    }
    if epsg.is_none() {
        push_arg(
            &mut notes,
            "Could not determine an EPSG code; reprojection relies on the embedded WKT.",
        );
    }
    assert(string_views(notes@) =~= raster_notes(is_tiled, has_overviews, epsg is Some));
    Ok(
        RasterFacts {
            width,
            height,
            driver,
            band_count,
            has_alpha,
            has_overviews,
            is_tiled,
            epsg,
            crs_name,
            is_geographic,
            notes,
        },
    )
}

} // verus!
