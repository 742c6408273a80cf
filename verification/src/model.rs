//! Data model of a tile-map generation run: output grids, tile codecs, resampling
//! kernels, per-zoom tallies and validation check results.

use vstd::prelude::*;
use crate::text::{chars_of, decimal, push_decimal, push_str, string_of};

verus! {

/// EPSG code of Web Mercator.
pub const EPSG_WEB_MERCATOR: u32 = 3857;

/// EPSG code of WGS84 geographic coordinates.
pub const EPSG_WGS84: u32 = 4326;

/// Output tiling grid (the coordinate reference system the pyramid is cut in).
#[derive(Clone, Copy, Debug, PartialEq, Eq, Structural)]
pub enum TileGrid {
    /// EPSG:3857 "Web Mercator", the universal z/x/y web-map grid.
    WebMercator,
    /// EPSG:4326 geographic grid (WGS84 lon/lat), 2 tiles wide at z0.
    Geodetic,
    /// An arbitrary projected CRS, cut in the warped image's own coordinate space.
    Custom(u32),
}

impl Default for TileGrid {
    fn default() -> (g: Self)
        ensures
            g == TileGrid::WebMercator,
    {
        TileGrid::WebMercator
    }
}

/// EPSG code of a grid's CRS.
pub open spec fn grid_epsg(g: TileGrid) -> u32 {
    match g {
        TileGrid::WebMercator => EPSG_WEB_MERCATOR,
        TileGrid::Geodetic => EPSG_WGS84,
        TileGrid::Custom(e) => e,
    }
}

/// `gdal2tiles --profile` value of a grid.
pub open spec fn grid_profile(g: TileGrid) -> Seq<char> {
    match g {
        TileGrid::WebMercator => "mercator"@,
        TileGrid::Geodetic => "geodetic"@,
        TileGrid::Custom(_) => "raster"@,
    }
}

/// Short stable identifier of a grid, used in file names and source ids.
pub open spec fn grid_slug(g: TileGrid) -> Seq<char> {
    match g {
        TileGrid::WebMercator => "webmercator"@,
        TileGrid::Geodetic => "wgs84"@,
        TileGrid::Custom(e) => "epsg"@ + decimal(e as nat),
    }
}

/// Human-friendly label of a grid.
pub open spec fn grid_label(g: TileGrid) -> Seq<char> {
    match g {
        TileGrid::WebMercator => "Web Mercator (EPSG:3857)"@,
        TileGrid::Geodetic => "WGS84 geographic (EPSG:4326)"@,
        TileGrid::Custom(e) => "Custom projected grid (EPSG:"@ + decimal(e as nat) + ")"@,
    }
}

impl TileGrid {
    /// EPSG code of the grid's coordinate reference system.
    pub fn epsg(self) -> (r: u32)
        ensures
            r == grid_epsg(self),
    {
        match self {
            TileGrid::WebMercator => EPSG_WEB_MERCATOR,
            TileGrid::Geodetic => EPSG_WGS84,
            TileGrid::Custom(e) => e,
        }
    }

    /// `gdal2tiles` `--profile` value: built-in grids use mercator/geodetic, any other CRS
    /// is cut in raster (image) space after warping.
    pub fn profile(self) -> (r: &'static str)
        ensures
            r@ == grid_profile(self),
    {
        match self {
            TileGrid::WebMercator => {
                proof {
                    reveal_strlit("mercator");
                }
                "mercator"
            },
            TileGrid::Geodetic => {
                proof {
                    reveal_strlit("geodetic");
                }
                "geodetic"
            },
            TileGrid::Custom(_) => {
                proof {
                    reveal_strlit("raster");
                }
                "raster"
            },
        }
    }

    /// True when the pyramid is cut in image space (a custom projected grid).
    pub fn is_raster_profile(self) -> (r: bool)
        ensures
            r == (self is Custom),
    {
        match self {
            TileGrid::Custom(_) => true,
            _ => false,
        }
    }

    /// Short stable identifier used in file names and source ids.
    pub fn slug(self) -> (r: String)
        ensures
            r@ == grid_slug(self),
    {
        match self {
            TileGrid::WebMercator => {
                proof {
                    reveal_strlit("webmercator");
                }
                "webmercator".to_string()
            },
            TileGrid::Geodetic => {
                proof {
                    reveal_strlit("wgs84");
                }
                "wgs84".to_string()
            },
            TileGrid::Custom(e) => {
                let mut v = chars_of("epsg");
                push_decimal(&mut v, e as u64);
                string_of(&v)
            },
        }
    }

    /// Human-friendly label for the UI.
    pub fn label(self) -> (r: String)
        ensures
            r@ == grid_label(self),
    {
        match self {
            TileGrid::WebMercator => {
                proof {
                    reveal_strlit("Web Mercator (EPSG:3857)");
                }
                "Web Mercator (EPSG:3857)".to_string()
            },
            TileGrid::Geodetic => {
                proof {
                    reveal_strlit("WGS84 geographic (EPSG:4326)");
                }
                "WGS84 geographic (EPSG:4326)".to_string()
            },
            TileGrid::Custom(e) => {
                let mut v = chars_of("Custom projected grid (EPSG:");
                push_decimal(&mut v, e as u64);
                push_str(&mut v, ")");
                string_of(&v)
            },
        }
    }
}

/// The grids used when none are requested: Web Mercator only.
pub fn default_grids() -> (r: Vec<TileGrid>)
    ensures
        r@ == seq![TileGrid::WebMercator],
{
    let mut r = Vec::new();
    r.push(TileGrid::WebMercator);
    assert(r@ =~= seq![TileGrid::WebMercator]);
    r
}

/// Image codec used for the generated tiles; both keep an alpha channel.
#[derive(Clone, Copy, Debug, PartialEq, Eq, Structural)]
pub enum TileFormat {
    /// Lossless PNG (default).
    Png,
    /// WebP with alpha.
    Webp,
}

impl Default for TileFormat {
    fn default() -> (f: Self)
        ensures
            f == TileFormat::Png,
    {
        TileFormat::Png
    }
}

/// File extension (no dot) of a tile format.
pub open spec fn format_ext(f: TileFormat) -> Seq<char> {
    match f {
        TileFormat::Png => "png"@,
        TileFormat::Webp => "webp"@,
    }
}

/// `gdal2tiles --tiledriver` value of a tile format.
pub open spec fn format_tiledriver(f: TileFormat) -> Seq<char> {
    match f {
        TileFormat::Png => "PNG"@,
        TileFormat::Webp => "WEBP"@,
    }
}

impl TileFormat {
    /// File extension (no dot).
    pub fn ext(self) -> (r: &'static str)
        ensures
            r@ == format_ext(self),
    {
        match self {
            TileFormat::Png => {
                proof {
                    reveal_strlit("png");
                }
                "png"
            },
            TileFormat::Webp => {
                proof {
                    reveal_strlit("webp");
                }
                "webp"
            },
        }
    }

    /// `gdal2tiles` `--tiledriver` value.
    pub fn tiledriver(self) -> (r: &'static str)
        ensures
            r@ == format_tiledriver(self),
    {
        match self {
            TileFormat::Png => {
                proof {
                    reveal_strlit("PNG");
                }
                "PNG"
            },
            TileFormat::Webp => {
                proof {
                    reveal_strlit("WEBP");
                }
                "WEBP"
            },
        }
    }
}

/// Resampling kernel used when reprojecting and building lower-zoom overviews.
#[derive(Clone, Copy, Debug, PartialEq, Eq, Structural)]
pub enum Resampling {
    /// Nearest neighbour.
    Near,
    /// Bilinear (default).
    Bilinear,
    /// Cubic convolution.
    Cubic,
    /// Average.
    Average,
    /// Lanczos.
    Lanczos,
}

impl Default for Resampling {
    fn default() -> (r: Self)
        ensures
            r == Resampling::Bilinear,
    {
        Resampling::Bilinear
    }
}

/// GDAL `-r` value of a kernel.
pub open spec fn resampling_gdal(r: Resampling) -> Seq<char> {
    match r {
        Resampling::Near => "near"@,
        Resampling::Bilinear => "bilinear"@,
        Resampling::Cubic => "cubic"@,
        Resampling::Average => "average"@,
        Resampling::Lanczos => "lanczos"@,
    }
}

/// GDAL COG `OVERVIEW_RESAMPLING` value of a kernel.
pub open spec fn resampling_cog(r: Resampling) -> Seq<char> {
    match r {
        Resampling::Near => "NEAREST"@,
        Resampling::Bilinear => "BILINEAR"@,
        Resampling::Cubic => "CUBIC"@,
        Resampling::Average => "AVERAGE"@,
        Resampling::Lanczos => "LANCZOS"@,
    }
}

impl Resampling {
    /// GDAL `-r` value (shared by `gdalwarp` and `gdal2tiles`).
    pub fn gdal(self) -> (r: &'static str)
        ensures
            r@ == resampling_gdal(self),
    {
        match self {
            Resampling::Near => {
                proof {
                    reveal_strlit("near");
                }
                "near"
            },
            Resampling::Bilinear => {
                proof {
                    reveal_strlit("bilinear");
                }
                "bilinear"
            },
            Resampling::Cubic => {
                proof {
                    reveal_strlit("cubic");
                }
                "cubic"
            },
            Resampling::Average => {
                proof {
                    reveal_strlit("average");
                }
                "average"
            },
            Resampling::Lanczos => {
                proof {
                    reveal_strlit("lanczos");
                }
                "lanczos"
            },
        }
    }
}

/// Map a resampling kernel to a GDAL COG `OVERVIEW_RESAMPLING` value.
pub fn cog_overview_resampling(r: Resampling) -> (s: &'static str)
    ensures
        s@ == resampling_cog(r),
{
    match r {
        Resampling::Near => {
            proof {
                reveal_strlit("NEAREST");
            }
            "NEAREST"
        },
        Resampling::Bilinear => {
            proof {
                reveal_strlit("BILINEAR");
            }
            "BILINEAR"
        },
        Resampling::Cubic => {
            proof {
                reveal_strlit("CUBIC");
            }
            "CUBIC"
        },
        Resampling::Average => {
            proof {
                reveal_strlit("AVERAGE");
            }
            "AVERAGE"
        },
        Resampling::Lanczos => {
            proof {
                reveal_strlit("LANCZOS");
            }
            "LANCZOS"
        },
    }
}

/// Per-zoom tile tally for one generated grid.
#[derive(Clone, Copy, Debug, PartialEq, Eq, Structural)]
pub struct ZoomTally {
    pub zoom: u8,
    pub tiles: u64,
}

/// Status of a single validation check.
#[derive(Clone, Copy, Debug, PartialEq, Eq, Structural)]
pub enum CheckStatus {
    Pass,
    Warn,
    Fail,
}

/// One line item in a validation report.
#[derive(Clone, Debug)]
pub struct ValidationCheck {
    pub name: String,
    pub status: CheckStatus,
    pub detail: String,
}

} // verus!
