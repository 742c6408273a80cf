//! The generation pipeline: several GeoTIFFs become one sparse tile map per output grid.
//! Per run: a mosaic with an alpha coverage mask, then per grid a reprojection, a sparse
//! `gdal2tiles` pyramid and an MBTiles pack, then optionally a Cloud-Optimized GeoTIFF.
//! This module holds the run's decisions: names, stage numbering, zoom ranges, tool
//! command lines, progress events, tile tallies and MBTiles metadata.

use vstd::prelude::*;
use crate::errors::TilerError;
use crate::gdalenv::{last_percent, parse_progress_percent, GdalEnv};
use crate::model::{
    format_ext, format_tiledriver, grid_epsg, grid_label, grid_profile, grid_slug, resampling_cog,
    resampling_gdal, cog_overview_resampling, Resampling, TileFormat, TileGrid, ZoomTally,
};
use crate::paths::path_exists;
use crate::pgcmd::{trim_underscores, underscore_pred};
use crate::text::{
    chars_of, concat2, contains_seq, contains_vec, decimal, is_alnum, is_alnum_exec, push_all,
    push_arg, push_decimal, push_owned, push_str, string_of, string_views, trim_by, trim_ws,
    trim_ws_vec,
};

verus! {

/// Options of one generation run.
pub struct GenerateOptions {
    /// Input GeoTIFF files (one or more), mosaicked together.
    pub inputs: Vec<String>,
    /// Directory the outputs (and the work directory) are written into.
    pub output_dir: String,
    /// Base name of the tile map (file names and served source ids).
    pub name: String,
    /// One or more output grids; each produces its own MBTiles.
    pub grids: Vec<TileGrid>,
    /// Minimum zoom; `None` derives it from the maximum.
    pub min_zoom: Option<u8>,
    /// Maximum zoom; `None` uses the native resolution of the imagery.
    pub max_zoom: Option<u8>,
    /// Tile image codec.
    pub format: TileFormat,
    /// Resampling kernel.
    pub resampling: Resampling,
    /// Parallel worker processes for tiling; `None` uses the number of CPUs.
    pub processes: Option<usize>,
    /// Also produce a single Cloud-Optimized GeoTIFF.
    pub cog: bool,
    /// Keep the intermediate working files.
    pub keep_intermediate: bool,
}

// ---------------------------------------------------------------------------
// names
// ---------------------------------------------------------------------------

/// A character of a file-safe name: ASCII alphanumerics, `-` and `_` stay, anything else
/// becomes `_`.
pub open spec fn safe_char(c: char) -> char {
    if is_alnum(c) || c == '-' || c == '_' {
        c
    } else {
        '_'
    }
}

/// A name made safe for file names and source ids: mapped characters without leading or
/// trailing `_`, `tilemap` when nothing is left.
pub open spec fn sanitized(s: Seq<char>) -> Seq<char> {
    let t = trim_by(s.map_values(|c: char| safe_char(c)), underscore_pred());
    if t.len() == 0 {
        "tilemap"@
    } else {
        t
    }
}

/// Make a string safe to use as a file name / source id.
pub fn sanitize(name: &str) -> (r: String)
    ensures
        r@ == sanitized(name@),
{
    let cs = chars_of(name);
    let mut m: Vec<char> = Vec::new();
    let mut i: usize = 0;
    while i < cs.len()
        invariant
            i <= cs@.len(),
            m@ == cs@.take(i as int).map_values(|c: char| safe_char(c)),
        decreases cs.len() - i,
    {
        let c = cs[i];
        let d = if is_alnum_exec(c) || c == '-' || c == '_' {
            c
        } else {
            '_'
        };
        m.push(d);
        i = i + 1;
        assert(m@ =~= cs@.take(i as int).map_values(|c: char| safe_char(c)));
    }
    assert(cs@.take(i as int) =~= cs@);
    let t = trim_underscores(&m);
    if t.len() == 0 {
        proof {
            reveal_strlit("tilemap");
        }
        "tilemap".to_string()
    } else {
        string_of(&t)
    }
}

/// The work directory of a run, inside the output directory.
pub fn work_dir_name(name: &str) -> (r: String)
    ensures
        r@ == ".tiler-work-"@ + sanitized(name@),
{
    let s = sanitize(name);
    proof {
        reveal_strlit(".tiler-work-");
    }
    concat2(".tiler-work-", s.as_str())
}

/// The source id a grid's MBTiles is served under: `{name}-{grid slug}`.
pub fn grid_source_id(name: &str, grid: TileGrid) -> (r: String)
    ensures
        r@ == sanitized(name@) + "-"@ + grid_slug(grid),
{
    let s = sanitize(name);
    let slug = grid.slug();
    let mut v = chars_of(s.as_str());
    push_str(&mut v, "-");
    push_str(&mut v, slug.as_str());
    proof {
        reveal_strlit("-");
    }
    string_of(&v)
}

/// The source id of the run's COG: `{name}-cog`.
pub fn cog_source_id(name: &str) -> (r: String)
    ensures
        r@ == sanitized(name@) + "-cog"@,
{
    let s = sanitize(name);
    proof {
        reveal_strlit("-cog");
    }
    concat2(s.as_str(), "-cog")
}

/// A file name made of a prefix, a grid's slug and a suffix (`warp_{slug}.vrt`,
/// `tiles_{slug}`).
pub fn grid_file_name(prefix: &str, grid: TileGrid, suffix: &str) -> (r: String)
    ensures
        r@ == prefix@ + grid_slug(grid) + suffix@,
{
    let slug = grid.slug();
    let mut v = chars_of(prefix);
    push_str(&mut v, slug.as_str());
    push_str(&mut v, suffix);
    string_of(&v)
}

// ---------------------------------------------------------------------------
// inputs
// ---------------------------------------------------------------------------

/// Index of the first input that does not exist.
pub open spec fn first_missing(exists: Seq<bool>) -> Option<int>
    decreases exists.len(),
{
    if exists.len() == 0 {
        None
    } else {
        match first_missing(exists.drop_last()) {
            Some(i) => Some(i),
            None => if exists.last() {
                None
            } else {
                Some(exists.len() - 1)
            },
        }
    }
}

/// What the input check answers, given whether each input exists: no inputs at all is
/// refused, then the first missing one is.
pub open spec fn input_outcome(inputs: Seq<Seq<char>>, exists: Seq<bool>, r: Result<(), TilerError>) -> bool {
    &&& (inputs.len() == 0 ==> r is Err && r->Err_0 is NoInputs)
    &&& inputs.len() > 0 ==> match first_missing(exists) {
        None => r is Ok,
        Some(i) => r matches Err(TilerError::InputMissing(p)) && p@ == inputs[i],
    }
}

/// The verdict on a run's inputs, given whether each one exists: no inputs at all is
/// refused, then the first missing one is.
pub fn input_verdict(inputs: &Vec<String>, exists: &Vec<bool>) -> (r: Result<(), TilerError>)
    requires
        exists@.len() == inputs@.len(),
    ensures
        inputs@.len() == 0 ==> r matches Err(TilerError::NoInputs),
        inputs@.len() > 0 ==> match first_missing(exists@) {
            None => r is Ok,
            Some(i) => r matches Err(TilerError::InputMissing(p)) && p@ == inputs@[i]@,
        },
{
    if inputs.len() == 0 {
        return Err(TilerError::NoInputs);
    }
    let mut i: usize = 0;
    while i < exists.len()
        invariant
            i <= exists@.len() == inputs@.len(),
            first_missing(exists@.take(i as int)) is None,
        decreases exists.len() - i,
    {
        assert(exists@.take(i + 1).drop_last() =~= exists@.take(i as int));
        if !exists[i] {
            proof {
                lemma_first_missing_prefix(exists@, i as int);
            }
            return Err(TilerError::InputMissing(inputs[i].clone()));
        }
        i = i + 1;
    }
    assert(exists@.take(i as int) =~= exists@);
    Ok(())
}

/// When the prefix before `i` has no missing input and `i` is missing, `i` is the first.
proof fn lemma_first_missing_prefix(exists: Seq<bool>, i: int)
    requires
        0 <= i < exists.len(),
        first_missing(exists.take(i)) is None,
        !exists[i],
    ensures
        first_missing(exists) == Some(i),
    decreases exists.len(),
{
    if i == exists.len() - 1 {
        assert(exists.drop_last() =~= exists.take(i));
    } else {
        assert(exists.drop_last().take(i) =~= exists.take(i));
        lemma_first_missing_prefix(exists.drop_last(), i);
    }
}

/// Check a run's inputs: whether each one exists is asked of the file system, and
/// `input_verdict` decides from the answers (refused without any inputs, else the first
/// missing one is named).
pub fn check_inputs(inputs: &Vec<String>) -> (r: Result<(), TilerError>)
    ensures
        exists|exists: Seq<bool>|
            exists.len() == inputs@.len() && input_outcome(string_views(inputs@), exists, r),
        inputs@.len() == 0 ==> r matches Err(TilerError::NoInputs),
        inputs@.len() > 0 ==> (r is Ok || (r matches Err(TilerError::InputMissing(p))
            && string_views(inputs@).contains(p@))),
{
    let mut exists: Vec<bool> = Vec::new();
    let mut i: usize = 0;
    while i < inputs.len()
        invariant
            i <= inputs@.len(),
            exists@.len() == i,
        decreases inputs.len() - i,
    {
        exists.push(path_exists(inputs[i].as_str()));
        i = i + 1;
    }
    let r = input_verdict(inputs, &exists);
    proof {
        if inputs@.len() > 0 {
            if let Some(k) = first_missing(exists@) {
                lemma_first_missing_range(exists@);
                assert(string_views(inputs@)[k] == inputs@[k]@);
            }
        }
        assert(input_outcome(string_views(inputs@), exists@, r));
    }
    r
}

/// The index `first_missing` gives is in range.
proof fn lemma_first_missing_range(exists: Seq<bool>)
    ensures
        first_missing(exists) matches Some(i) ==> 0 <= i < exists.len(),
    decreases exists.len(),
{
    if exists.len() > 0 {
        lemma_first_missing_range(exists.drop_last());
    }
}

// ---------------------------------------------------------------------------
// stages
// ---------------------------------------------------------------------------

/// Number of stages of a run: the mosaic, three per grid (reproject, tile, pack), and the
/// COG when one is requested.
pub open spec fn stage_count(grids: nat, cog: bool) -> nat {
    1 + 3 * grids + if cog {
        1nat
    } else {
        0nat
    }
}

/// Total stages of a run.
pub fn total_stages(grids: usize, cog: bool) -> (r: u32)
    requires
        stage_count(grids as nat, cog) <= u32::MAX,
    ensures
        r == stage_count(grids as nat, cog),
{
    let c: u32 = if cog {
        1
    } else {
        0
    };
    1 + (grids as u32) * 3 + c
}

/// One stage of a run, as announced in the progress feed.
pub struct StageStep {
    /// Stage name: `mosaic`, `reproject`, `tile`, `pack` or `cog`.
    pub stage: String,
    /// 1-based index of the stage.
    pub index: u32,
    /// Total number of stages of the run.
    pub total: u32,
    /// The grid the stage works on, if grid-specific.
    pub grid: Option<TileGrid>,
}

/// The stages of the given grids, in order.
pub open spec fn grid_stages(grids: Seq<TileGrid>) -> Seq<(Seq<char>, Option<TileGrid>)>
    decreases grids.len(),
{
    if grids.len() == 0 {
        Seq::empty()
    } else {
        grid_stages(grids.drop_last()) + seq![
            ("reproject"@, Some(grids.last())),
            ("tile"@, Some(grids.last())),
            ("pack"@, Some(grids.last())),
        ]
    }
}

/// The names and grids of a run's stages, in order.
pub open spec fn stage_names(grids: Seq<TileGrid>, cog: bool) -> Seq<(Seq<char>, Option<TileGrid>)> {
    seq![("mosaic"@, None)] + grid_stages(grids) + if cog {
        seq![("cog"@, None)]
    } else {
        Seq::empty()
    }
}

pub proof fn lemma_grid_stages_len(grids: Seq<TileGrid>)
    ensures
        grid_stages(grids).len() == 3 * grids.len(),
    decreases grids.len(),
{
    if grids.len() > 0 {
        lemma_grid_stages_len(grids.drop_last());
    }
}

/// Law: a run announces exactly as many stages as it counts.
pub proof fn stage_names_counted(grids: Seq<TileGrid>, cog: bool)
    ensures
        stage_names(grids, cog).len() == stage_count(grids.len(), cog),
{
    lemma_grid_stages_len(grids);
}

/// Push one announced stage.
fn push_stage(
    steps: &mut Vec<StageStep>,
    name: &str,
    total: u32,
    grid: Option<TileGrid>,
)
    requires
        old(steps)@.len() < total,
    ensures
        final(steps)@.len() == old(steps)@.len() + 1,
        forall|k: int| 0 <= k < old(steps)@.len() ==> #[trigger] final(steps)@[k] == old(steps)@[k],
        final(steps)@.last().stage@ == name@,
        final(steps)@.last().index == old(steps)@.len() + 1,
        final(steps)@.last().total == total,
        final(steps)@.last().grid == grid,
{
    let index = (steps.len() + 1) as u32;
    steps.push(StageStep { stage: name.to_string(), index, total, grid });
}

/// The stages a run announces, in order: each numbered from 1 and carrying the total.
pub fn stage_plan(grids: &Vec<TileGrid>, cog: bool) -> (r: Vec<StageStep>)
    requires
        stage_count(grids@.len(), cog) <= u32::MAX,
    ensures
        r@.len() == stage_count(grids@.len(), cog),
        forall|k: int|
            0 <= k < r@.len() ==> (#[trigger] r@[k]).index == k + 1 && r@[k].total == stage_count(
                grids@.len(),
                cog,
            ) && r@[k].stage@ == stage_names(grids@, cog)[k].0 && r@[k].grid == stage_names(
                grids@,
                cog,
            )[k].1,
{
    let total = total_stages(grids.len(), cog);
    let ghost names = stage_names(grids@, cog);
    proof {
        stage_names_counted(grids@, cog);
        reveal_strlit("mosaic");
        reveal_strlit("reproject");
        reveal_strlit("tile");
        reveal_strlit("pack");
        reveal_strlit("cog");
    }
    let mut steps: Vec<StageStep> = Vec::new();
    push_stage(&mut steps, "mosaic", total, None);
    let mut i: usize = 0;
    while i < grids.len()
        invariant
            i <= grids@.len(),
            total == stage_count(grids@.len(), cog),
            steps@.len() == 1 + 3 * i,
            forall|k: int|
                0 <= k < steps@.len() ==> (#[trigger] steps@[k]).index == k + 1 && steps@[k].total
                    == total && steps@[k].stage@ == (seq![("mosaic"@, None::<TileGrid>)]
                    + grid_stages(grids@.take(i as int)))[k].0 && steps@[k].grid == (seq![
                    ("mosaic"@, None::<TileGrid>),
                ] + grid_stages(grids@.take(i as int)))[k].1,
        decreases grids.len() - i,
    {
        let g = grids[i];
        let ghost prefix = seq![("mosaic"@, None::<TileGrid>)] + grid_stages(grids@.take(i as int));
        proof {
            lemma_grid_stages_len(grids@.take(i as int));
            assert(grids@.take(i + 1).drop_last() =~= grids@.take(i as int));
        }
        push_stage(&mut steps, "reproject", total, Some(g));
        push_stage(&mut steps, "tile", total, Some(g));
        push_stage(&mut steps, "pack", total, Some(g));
        let ghost next = seq![("mosaic"@, None::<TileGrid>)] + grid_stages(grids@.take(i + 1));
        assert(next =~= prefix + seq![
            ("reproject"@, Some(g)),
            ("tile"@, Some(g)),
            ("pack"@, Some(g)),
        ]);
        i = i + 1;
    }
    assert(grids@.take(i as int) =~= grids@);
    if cog {
        push_stage(&mut steps, "cog", total, None);
    }
    assert(names =~= seq![("mosaic"@, None::<TileGrid>)] + grid_stages(grids@) + if cog {
        seq![("cog"@, None::<TileGrid>)]
    } else {
        Seq::empty()
    });
    steps
}

// ---------------------------------------------------------------------------
// zoom levels
// ---------------------------------------------------------------------------

/// `2^n`.
pub open spec fn two_pow(n: nat) -> nat
    decreases n,
{
    if n == 0 {
        1
    } else {
        2 * two_pow((n - 1) as nat)
    }
}

/// The highest zoom a run may reach.
pub const MAX_ZOOM: u8 = 24;

/// Zoom of an image cut in its own raster space: the least zoom at which one 256-pixel
/// tile per pixel covers the longest side, capped at 24.
pub open spec fn image_zoom_ok(longest: nat, z: nat) -> bool {
    &&& z <= 24
    &&& (z < 24 ==> longest <= 256 * two_pow(z))
    &&& (z > 0 ==> longest > 256 * two_pow((z - 1) as nat))
}

/// Web Mercator-style native zoom for an image cut in raster (image) space: the zoom at
/// which the longest side fills one 256px tile per pixel.
pub fn image_native_zoom(width: u32, height: u32) -> (r: u8)
    ensures
        image_zoom_ok(
            if width >= height && width >= 1 {
                width as nat
            } else if height >= 1 {
                height as nat
            } else {
                1
            },
            r as nat,
        ),
{
    let mut d: u64 = if width >= height {
        width as u64
    } else {
        height as u64
    };
    if d < 1 {
        d = 1;
    }
    let mut z: u8 = 0;
    let mut cap: u64 = 256;
    while cap < d && z < 24
        invariant
            z <= 24,
            cap == 256 * two_pow(z as nat),
            1 <= d <= u32::MAX,
            z > 0 ==> d > 256 * two_pow((z - 1) as nat),
        decreases 24 - z,
    {
        assert(two_pow((z + 1) as nat) == 2 * two_pow(z as nat));
        assert(cap * 2 <= 2 * 0xffff_ffffu64);
        cap = cap * 2;
        z = z + 1;
    }
    z
}

/// The zoom range of one grid: for a raster-profile grid, the image's own zoom and the
/// eight below it; otherwise the requested maximum (else the native zoom, else 18) capped
/// at 24, and the requested minimum (else eight below the maximum).
pub open spec fn zoom_range_spec(
    image_zoom: Option<u8>,
    max_zoom: Option<u8>,
    min_zoom: Option<u8>,
    native: Option<u8>,
) -> (int, int) {
    match image_zoom {
        Some(z) => {
            let m: int = if z <= 24 {
                z as int
            } else {
                24
            };
            (if m >= 8 {
                m - 8
            } else {
                0
            }, m)
        },
        None => {
            let want: int = match max_zoom {
                Some(x) => x as int,
                None => match native {
                    Some(n) => n as int,
                    None => 18,
                },
            };
            let m: int = if want <= 24 {
                want
            } else {
                24
            };
            (match min_zoom {
                Some(x) => x as int,
                None => if m >= 8 {
                    m - 8
                } else {
                    0
                },
            }, m)
        },
    }
}

/// The `(min, max)` zoom of one grid; refused when the minimum exceeds the maximum.
pub fn zoom_range(
    image_zoom: Option<u8>,
    max_zoom: Option<u8>,
    min_zoom: Option<u8>,
    native: Option<u8>,
) -> (r: Result<(u8, u8), TilerError>)
    ensures
        ({
            let (lo, hi) = zoom_range_spec(image_zoom, max_zoom, min_zoom, native);
            match r {
                Ok((a, b)) => a == lo && b == hi && lo <= hi,
                Err(e) => {
                    &&& lo > hi
                    &&& e matches TilerError::BadZoomRange { min, max } && min == lo && max == hi
                },
            }
        }),
{
    let (lo, hi) = match image_zoom {
        Some(z) => {
            let m = if z <= 24 {
                z
            } else {
                24
            };
            (if m >= 8 {
                m - 8
            } else {
                0
            }, m)
        },
        None => {
            let want = match max_zoom {
                Some(x) => x,
                None => match native {
                    Some(n) => n,
                    None => 18,
                },
            };
            let m = if want <= 24 {
                want
            } else {
                24
            };
            (match min_zoom {
                Some(x) => x,
                None => if m >= 8 {
                    m - 8
                } else {
                    0
                },
            }, m)
        },
    };
    if lo > hi {
        Err(TilerError::BadZoomRange { min: lo, max: hi })
    } else {
        Ok((lo, hi))
    }
}

/// The largest native zoom among the inputs that have one.
pub open spec fn max_native(zs: Seq<Option<u8>>) -> Option<u8>
    decreases zs.len(),
{
    if zs.len() == 0 {
        None
    } else {
        match (max_native(zs.drop_last()), zs.last()) {
            (Some(a), Some(b)) => Some(if a >= b {
                a
            } else {
                b
            }),
            (Some(a), None) => Some(a),
            (None, b) => b,
        }
    }
}

/// The largest native zoom among the inputs.
pub fn max_native_zoom(zs: &Vec<Option<u8>>) -> (r: Option<u8>)
    ensures
        r == max_native(zs@),
{
    let mut best: Option<u8> = None;
    let mut i: usize = 0;
    while i < zs.len()
        invariant
            i <= zs@.len(),
            best == max_native(zs@.take(i as int)),
        decreases zs.len() - i,
    {
        assert(zs@.take(i + 1).drop_last() =~= zs@.take(i as int));
        best = match (best, zs[i]) {
            (Some(a), Some(b)) => Some(
                if a >= b {
                    a
                } else {
                    b
                },
            ),
            (Some(a), None) => Some(a),
            (None, b) => b,
        };
        i = i + 1;
    }
    assert(zs@.take(i as int) =~= zs@);
    best
}

// ---------------------------------------------------------------------------
// tool command lines
// ---------------------------------------------------------------------------

/// `gdalbuildvrt -addalpha`: combine the inputs and mask empty areas as transparent.
pub open spec fn mosaic_args_spec(out_vrt: Seq<char>, inputs: Seq<Seq<char>>) -> Seq<Seq<char>> {
    seq!["-overwrite"@, "-addalpha"@, out_vrt] + inputs
}

/// The `gdalbuildvrt` arguments of the mosaic.
pub fn mosaic_args(out_vrt: &str, inputs: &Vec<String>) -> (r: Vec<String>)
    ensures
        string_views(r@) == mosaic_args_spec(out_vrt@, string_views(inputs@)),
{
    let mut a: Vec<String> = Vec::new();
    push_arg(&mut a, "-overwrite");
    push_arg(&mut a, "-addalpha");
    push_arg(&mut a, out_vrt);
    let ghost head = string_views(a@);
    let mut i: usize = 0;
    while i < inputs.len()
        invariant
            i <= inputs@.len(),
            string_views(a@) == head + string_views(inputs@).take(i as int),
        decreases inputs.len() - i,
    {
        push_arg(&mut a, inputs[i].as_str());
        assert(string_views(inputs@).take(i + 1) =~= string_views(inputs@).take(i as int).push(
            inputs@[i as int]@,
        ));
        i = i + 1;
    }
    proof {
        reveal_strlit("-overwrite");
        reveal_strlit("-addalpha");
        assert(string_views(inputs@).take(i as int) =~= string_views(inputs@));
        assert(head =~= seq!["-overwrite"@, "-addalpha"@, out_vrt@]);
    }
    a
}

/// `EPSG:{code}`.
pub open spec fn epsg_text(code: u32) -> Seq<char> {
    "EPSG:"@ + decimal(code as nat)
}

/// `EPSG:{code}` as a string.
pub fn epsg_string(code: u32) -> (r: String)
    ensures
        r@ == epsg_text(code),
{
    let mut v = chars_of("EPSG:");
    push_decimal(&mut v, code as u64);
    proof {
        reveal_strlit("EPSG:");
    }
    string_of(&v)
}

/// `gdalwarp`: reproject the mosaic into the grid's CRS, keeping the alpha mask.
pub open spec fn warp_args_spec(
    grid: TileGrid,
    resampling: Resampling,
    mosaic: Seq<char>,
    out: Seq<char>,
) -> Seq<Seq<char>> {
    seq![
        "-overwrite"@,
        "-of"@,
        "VRT"@,
        "-t_srs"@,
        epsg_text(grid_epsg(grid)),
        "-r"@,
        resampling_gdal(resampling),
        "-multi"@,
        "-wo"@,
        "NUM_THREADS=ALL_CPUS"@,
        mosaic,
        out,
    ]
}

/// The `gdalwarp` arguments of one grid.
pub fn warp_args(grid: TileGrid, resampling: Resampling, mosaic: &str, out: &str) -> (r: Vec<String>)
    ensures
        string_views(r@) == warp_args_spec(grid, resampling, mosaic@, out@),
{
    let mut a: Vec<String> = Vec::new();
    push_arg(&mut a, "-overwrite");
    push_arg(&mut a, "-of");
    push_arg(&mut a, "VRT");
    push_arg(&mut a, "-t_srs");
    push_owned(&mut a, epsg_string(grid.epsg()));
    push_arg(&mut a, "-r");
    push_arg(&mut a, resampling.gdal());
    push_arg(&mut a, "-multi");
    push_arg(&mut a, "-wo");
    push_arg(&mut a, "NUM_THREADS=ALL_CPUS");
    push_arg(&mut a, mosaic);
    push_arg(&mut a, out);
    assert(string_views(a@) =~= warp_args_spec(grid, resampling, mosaic@, out@));
    a
}

/// `{min}-{max}`, the `-z` value of `gdal2tiles`.
pub open spec fn zoom_span(min: u8, max: u8) -> Seq<char> {
    decimal(min as nat) + "-"@ + decimal(max as nat)
}

/// `gdal2tiles --xyz`: cut the sparse pyramid; transparent tiles are not written, and
/// no KML files are emitted next to the tiles.
pub open spec fn tile_args_spec(
    grid: TileGrid,
    min: u8,
    max: u8,
    resampling: Resampling,
    format: TileFormat,
    processes: usize,
    warped: Seq<char>,
    tiles_dir: Seq<char>,
) -> Seq<Seq<char>> {
    seq![
        "--xyz"@,
        "--profile"@,
        grid_profile(grid),
        "-z"@,
        zoom_span(min, max),
        "-r"@,
        resampling_gdal(resampling),
        "--tiledriver"@,
        format_tiledriver(format),
        "--processes"@,
        decimal(processes as nat),
        "-w"@,
        "none"@,
        "--no-kml"@,
        warped,
        tiles_dir,
    ]
}

/// The `gdal2tiles` arguments of one grid.
pub fn tile_args(
    grid: TileGrid,
    min: u8,
    max: u8,
    resampling: Resampling,
    format: TileFormat,
    processes: usize,
    warped: &str,
    tiles_dir: &str,
) -> (r: Vec<String>)
    ensures
        string_views(r@) == tile_args_spec(
            grid,
            min,
            max,
            resampling,
            format,
            processes,
            warped@,
            tiles_dir@,
        ),
{
    let mut a: Vec<String> = Vec::new();
    push_arg(&mut a, "--xyz");
    push_arg(&mut a, "--profile");
    push_arg(&mut a, grid.profile());
    push_arg(&mut a, "-z");
    let mut z = chars_of("");
    push_decimal(&mut z, min as u64);
    push_str(&mut z, "-");
    push_decimal(&mut z, max as u64);
    proof {
        reveal_strlit("");
        reveal_strlit("-");
    }
    push_owned(&mut a, string_of(&z));
    push_arg(&mut a, "-r");
    push_arg(&mut a, resampling.gdal());
    push_arg(&mut a, "--tiledriver");
    push_arg(&mut a, format.tiledriver());
    push_arg(&mut a, "--processes");
    push_owned(&mut a, crate::text::decimal_string(processes as u64));
    push_arg(&mut a, "-w");
    push_arg(&mut a, "none");
    push_arg(&mut a, "--no-kml");
    push_arg(&mut a, warped);
    push_arg(&mut a, tiles_dir);
    assert(string_views(a@) =~= tile_args_spec(
        grid,
        min,
        max,
        resampling,
        format,
        processes,
        warped@,
        tiles_dir@,
    ));
    a
}

/// The full `gdal2tiles` command of one grid: the launcher (or Python with
/// `-m osgeo_utils.gdal2tiles`) followed by the tile arguments.
pub fn tile_command(gdal: &GdalEnv, args: Vec<String>) -> (r: (String, Vec<String>))
    ensures
        match gdal.python {
            Some(py) => r.0@ == py@ && string_views(r.1@) == seq!["-m"@, "osgeo_utils.gdal2tiles"@]
                + string_views(args@),
            None => r.0@ == gdal.gdal2tiles@ && string_views(r.1@) == string_views(args@),
        },
{
    let (program, mut full) = gdal.gdal2tiles_invocation();
    let ghost head = string_views(full@);
    let ghost av = string_views(args@);
    let mut rest = args;
    full.append(&mut rest);
    assert(string_views(full@) =~= head + av);
    (program, full)
}

/// The COG compression of a tile format: lossless DEFLATE for PNG, WEBP for WebP.
pub open spec fn cog_compress(format: TileFormat) -> Seq<char> {
    match format {
        TileFormat::Webp => "WEBP"@,
        TileFormat::Png => "DEFLATE"@,
    }
}

/// `gdal_translate -of COG`: one Cloud-Optimized GeoTIFF aligned to the Web Mercator
/// tile grid, with overviews and sparse blocks (WebP at quality 85).
pub open spec fn cog_args_spec(
    format: TileFormat,
    resampling: Resampling,
    mosaic: Seq<char>,
    out: Seq<char>,
) -> Seq<Seq<char>> {
    seq![
        "-of"@,
        "COG"@,
        "-co"@,
        "TILING_SCHEME=GoogleMapsCompatible"@,
        "-co"@,
        "COMPRESS="@ + cog_compress(format),
        "-co"@,
        "SPARSE_OK=TRUE"@,
        "-co"@,
        "OVERVIEW_RESAMPLING="@ + resampling_cog(resampling),
    ] + (if format == TileFormat::Webp {
        seq!["-co"@, "QUALITY=85"@]
    } else {
        Seq::empty()
    }) + seq![mosaic, out]
}

/// The `gdal_translate` arguments of the COG.
pub fn cog_args(format: TileFormat, resampling: Resampling, mosaic: &str, out: &str) -> (r: Vec<
    String,
>)
    ensures
        string_views(r@) == cog_args_spec(format, resampling, mosaic@, out@),
{
    let compress = match format {
        TileFormat::Webp => "WEBP",
        TileFormat::Png => "DEFLATE",
    };
    proof {
        reveal_strlit("WEBP");
        reveal_strlit("DEFLATE");
    }
    let mut a: Vec<String> = Vec::new();
    push_arg(&mut a, "-of");
    push_arg(&mut a, "COG");
    push_arg(&mut a, "-co");
    push_arg(&mut a, "TILING_SCHEME=GoogleMapsCompatible");
    push_arg(&mut a, "-co");
    push_owned(&mut a, concat2("COMPRESS=", compress));
    push_arg(&mut a, "-co");
    push_arg(&mut a, "SPARSE_OK=TRUE");
    push_arg(&mut a, "-co");
    push_owned(&mut a, concat2("OVERVIEW_RESAMPLING=", cog_overview_resampling(resampling)));
    let ghost head = string_views(a@);
    if format == TileFormat::Webp {
        push_arg(&mut a, "-co");
        push_arg(&mut a, "QUALITY=85");
    }
    let ghost mid = string_views(a@);
    push_arg(&mut a, mosaic);
    push_arg(&mut a, out);
    assert(string_views(a@) =~= mid + seq![mosaic@, out@]);
    assert(string_views(a@) =~= cog_args_spec(format, resampling, mosaic@, out@));
    a
}

/// `gdalsrsinfo -o proj4 --single-line EPSG:{code}`.
pub open spec fn srsinfo_args_spec(epsg: u32) -> Seq<Seq<char>> {
    seq!["-o"@, "proj4"@, "--single-line"@, epsg_text(epsg)]
}

/// The `gdalsrsinfo` arguments that print the PROJ.4 definition of an EPSG code.
pub fn srsinfo_args(epsg: u32) -> (r: Vec<String>)
    ensures
        string_views(r@) == srsinfo_args_spec(epsg),
{
    let mut a: Vec<String> = Vec::new();
    push_arg(&mut a, "-o");
    push_arg(&mut a, "proj4");
    push_arg(&mut a, "--single-line");
    push_owned(&mut a, epsg_string(epsg));
    assert(string_views(a@) =~= srsinfo_args_spec(epsg));
    a
}

/// The predicate "is `'`".
pub open spec fn quote_pred() -> spec_fn(char) -> bool {
    |c: char| c == '\''
}

/// The PROJ.4 definition printed by `gdalsrsinfo`: the output trimmed of whitespace and
/// quotes, when it holds `+proj`.
pub open spec fn srsinfo_proj4(out: Seq<char>) -> Option<Seq<char>> {
    let s = trim_ws(trim_by(trim_ws(out), quote_pred()));
    if contains_seq(s, "+proj"@) {
        Some(s)
    } else {
        None
    }
}

/// The PROJ.4 definition in `gdalsrsinfo` output, if any.
pub fn proj4_from_srsinfo(out: &str) -> (r: Option<String>)
    ensures
        r is None <==> srsinfo_proj4(out@) is None,
        r matches Some(p) ==> srsinfo_proj4(out@) == Some(p@),
{
    let a = trim_ws_vec(&chars_of(out));
    let b = trim_quotes(&a);
    let c = trim_ws_vec(&b);
    let pat = chars_of("+proj");
    proof {
        reveal_strlit("+proj");
    }
    if contains_vec(&c, &pat) {
        Some(string_of(&c))
    } else {
        None
    }
}

/// Trim `'` from both ends of a character vector.
fn trim_quotes(s: &Vec<char>) -> (r: Vec<char>)
    ensures
        r@ == trim_by(s@, quote_pred()),
{
    let ghost p = quote_pred();
    let n = s.len();
    let mut lo: usize = 0;
    while lo < n && s[lo] == '\''
        invariant
            lo <= n == s@.len(),
            forall|i: int| 0 <= i < lo ==> #[trigger] s@[i] == '\'',
        decreases n - lo,
    {
        lo = lo + 1;
    }
    proof {
        crate::text::lemma_lead_count_unique(s@, p, lo as int);
    }
    let ghost u = crate::text::trim_start_by(s@, p);
    assert(u =~= s@.skip(lo as int));
    let mut hi = n;
    while hi > lo && s[hi - 1] == '\''
        invariant
            lo <= hi <= n == s@.len(),
            forall|i: int| hi <= i < n ==> #[trigger] s@[i] == '\'',
        decreases hi - lo,
    {
        hi = hi - 1;
    }
    proof {
        assert forall|i: int| hi - lo <= i < u.len() implies p(#[trigger] u[i]) by {
            assert(u[i] == s@[lo + i]);
        }
        if hi > lo {
            assert(u[hi - lo - 1] == s@[hi - 1]);
        }
        crate::text::lemma_trail_count_unique(u, p, hi - lo);
        assert(crate::text::trim_end_by(u, p) =~= s@.subrange(lo as int, hi as int));
    }
    crate::text::slice_of(s, lo, hi)
}

// ---------------------------------------------------------------------------
// progress
// ---------------------------------------------------------------------------

/// A progress event of a run.
pub enum ProgressEvent {
    /// A new stage started.
    Stage(StageStep),
    /// Percentage progress within a stage (0..=100).
    Percent { stage: String, percent: u32 },
    /// A human-readable log line.
    Log { message: String },
}

/// The log line of a tool's output line: `[{stage}] {line}`.
pub open spec fn log_text(stage: Seq<char>, line: Seq<char>) -> Seq<char> {
    "["@ + stage + "] "@ + line
}

/// The events of one output line of a tool: nothing for a blank line; else its progress
/// percentage when it shows one, then the line itself, trimmed and tagged with the stage.
pub fn emit_line(stage: &str, line: &str) -> (r: Vec<ProgressEvent>)
    ensures
        ({
            let t = trim_ws(line@);
            if t.len() == 0 {
                r@.len() == 0
            } else {
                match last_percent(t) {
                    Some(p) => {
                        &&& r@.len() == 2
                        &&& r@[0] matches ProgressEvent::Percent { stage: s, percent } && s@
                            == stage@ && percent == p
                        &&& r@[1] matches ProgressEvent::Log { message } && message@ == log_text(
                            stage@,
                            t,
                        )
                    },
                    None => {
                        &&& r@.len() == 1
                        &&& r@[0] matches ProgressEvent::Log { message } && message@ == log_text(
                            stage@,
                            t,
                        )
                    },
                }
            }
        }),
{
    let t = trim_ws_vec(&chars_of(line));
    let mut out: Vec<ProgressEvent> = Vec::new();
    if t.len() == 0 {
        return out;
    }
    let ts = string_of(&t);
    match parse_progress_percent(ts.as_str()) {
        Some(p) => {
            out.push(ProgressEvent::Percent { stage: stage.to_string(), percent: p });
        },
        None => {},
    }
    let mut m = chars_of("[");
    push_str(&mut m, stage);
    push_str(&mut m, "] ");
    push_all(&mut m, &t);
    proof {
        reveal_strlit("[");
        reveal_strlit("] ");
    }
    out.push(ProgressEvent::Log { message: string_of(&m) });
    out
}

// ---------------------------------------------------------------------------
// counting what was written
// ---------------------------------------------------------------------------

/// The tiles found under one zoom directory, as `(x, y)` columns and rows.
pub struct ZoomLevelTiles {
    pub zoom: u8,
    pub tiles: Vec<(u32, u32)>,
}

/// The least of the `x` (or `y`) of the tiles.
pub open spec fn min_coord(t: Seq<(u32, u32)>, use_x: bool) -> int
    decreases t.len(),
{
    if t.len() == 0 {
        0
    } else {
        let v: int = if use_x {
            t.last().0 as int
        } else {
            t.last().1 as int
        };
        if t.len() == 1 {
            v
        } else {
            let m = min_coord(t.drop_last(), use_x);
            if v < m {
                v
            } else {
                m
            }
        }
    }
}

/// The greatest of the `x` (or `y`) of the tiles.
pub open spec fn max_coord(t: Seq<(u32, u32)>, use_x: bool) -> int
    decreases t.len(),
{
    if t.len() == 0 {
        0
    } else {
        let v: int = if use_x {
            t.last().0 as int
        } else {
            t.last().1 as int
        };
        if t.len() == 1 {
            v
        } else {
            let m = max_coord(t.drop_last(), use_x);
            if v > m {
                v
            } else {
                m
            }
        }
    }
}

/// The tiles a dense pyramid would have at this zoom: the bounding box of the tiles
/// that exist, in tiles.
pub open spec fn dense_count(t: Seq<(u32, u32)>) -> int {
    (max_coord(t, true) - min_coord(t, true) + 1) * (max_coord(t, false) - min_coord(t, false) + 1)
}

/// A bounding box of tiles whose sides fit the counters of the tally.
pub open spec fn tally_fits(t: Seq<(u32, u32)>) -> bool {
    t.len() > 0 ==> max_coord(t, true) - min_coord(t, true) < u32::MAX && max_coord(t, false)
        - min_coord(t, false) < u32::MAX
}

pub proof fn lemma_coord_bounds(t: Seq<(u32, u32)>, use_x: bool)
    ensures
        t.len() > 0 ==> 0 <= min_coord(t, use_x) <= max_coord(t, use_x) <= u32::MAX,
    decreases t.len(),
{
    if t.len() > 1 {
        lemma_coord_bounds(t.drop_last(), use_x);
    }
}

/// Count the tiles of one zoom level and the tiles its bounding box spans.
pub fn tally_tiles(tiles: &Vec<(u32, u32)>) -> (r: (u64, u64))
    requires
        tally_fits(tiles@),
    ensures
        r.0 == tiles@.len(),
        tiles@.len() > 0 ==> r.1 == dense_count(tiles@),
        tiles@.len() == 0 ==> r.1 == 0,
{
    if tiles.len() == 0 {
        return (0, 0);
    }
    let mut min_x = tiles[0].0;
    let mut max_x = tiles[0].0;
    let mut min_y = tiles[0].1;
    let mut max_y = tiles[0].1;
    let mut i: usize = 1;
    assert(tiles@.take(1).drop_last() =~= Seq::<(u32, u32)>::empty());
    while i < tiles.len()
        invariant
            1 <= i <= tiles@.len(),
            min_x == min_coord(tiles@.take(i as int), true),
            max_x == max_coord(tiles@.take(i as int), true),
            min_y == min_coord(tiles@.take(i as int), false),
            max_y == max_coord(tiles@.take(i as int), false),
        decreases tiles.len() - i,
    {
        assert(tiles@.take(i + 1).drop_last() =~= tiles@.take(i as int));
        let (x, y) = tiles[i];
        if x < min_x {
            min_x = x;
        }
        if x > max_x {
            max_x = x;
        }
        if y < min_y {
            min_y = y;
        }
        if y > max_y {
            max_y = y;
        }
        i = i + 1;
    }
    assert(tiles@.take(i as int) =~= tiles@);
    proof {
        lemma_coord_bounds(tiles@, true);
        lemma_coord_bounds(tiles@, false);
    }
    let w: u64 = (max_x - min_x + 1) as u64;
    let h: u64 = (max_y - min_y + 1) as u64;
    assert(w * h <= 0xffff_ffffu64 * 0xffff_ffffu64) by (nonlinear_arith)
        requires
            w <= 0xffff_ffffu64,
            h <= 0xffff_ffffu64,
    ;
    (tiles.len() as u64, w * h)
}

/// The zoom levels ordered by zoom, keeping the found order among equal zooms.
pub open spec fn levels_by_zoom(levels: Seq<ZoomLevelTiles>, upto: nat) -> Seq<ZoomLevelTiles>
    decreases upto,
{
    if upto == 0 {
        Seq::empty()
    } else {
        levels_by_zoom(levels, (upto - 1) as nat) + levels.filter(
            |l: ZoomLevelTiles| l.zoom == (upto - 1) as u8,
        )
    }
}

/// The per-zoom tallies of the levels that hold tiles.
pub open spec fn tallies_of(levels: Seq<ZoomLevelTiles>) -> Seq<ZoomTally>
    decreases levels.len(),
{
    if levels.len() == 0 {
        Seq::empty()
    } else if levels.last().tiles@.len() > 0 {
        tallies_of(levels.drop_last()).push(
            ZoomTally { zoom: levels.last().zoom, tiles: levels.last().tiles@.len() as u64 },
        )
    } else {
        tallies_of(levels.drop_last())
    }
}

/// The dense total of the levels: the sum of their bounding boxes in tiles.
pub open spec fn dense_total_of(levels: Seq<ZoomLevelTiles>) -> int
    decreases levels.len(),
{
    if levels.len() == 0 {
        0
    } else if levels.last().tiles@.len() > 0 {
        dense_total_of(levels.drop_last()) + dense_count(levels.last().tiles@)
    } else {
        dense_total_of(levels.drop_last())
    }
}

/// Every level's bounding box fits the tally's counters.
pub open spec fn levels_fit(levels: Seq<ZoomLevelTiles>) -> bool {
    forall|i: int| 0 <= i < levels.len() ==> tally_fits(#[trigger] levels[i].tiles@)
}

/// `2^64`, where the dense count of a tally stops growing.
pub open spec fn dense_cap() -> int {
    0x1_0000_0000_0000_0000
}

/// The per-zoom tallies of a generated pyramid, ordered by zoom, and its dense total,
/// counted up to `2^64`.
fn tally_levels(levels: &Vec<ZoomLevelTiles>) -> (r: (Vec<ZoomTally>, u128))
    requires
        levels_fit(levels@),
    ensures
        r.0@ == tallies_of(levels_by_zoom(levels@, 256)),
        r.1 == if dense_total_of(levels_by_zoom(levels@, 256)) <= dense_cap() {
            dense_total_of(levels_by_zoom(levels@, 256))
        } else {
            dense_cap()
        },
{
    let mut tallies: Vec<ZoomTally> = Vec::new();
    let mut dense: u128 = 0;
    let mut z: u16 = 0;
    while z < 256
        invariant
            z <= 256,
            levels_fit(levels@),
            tallies@ == tallies_of(levels_by_zoom(levels@, z as nat)),
            dense as int == if dense_total_of(levels_by_zoom(levels@, z as nat)) <= dense_cap() {
                dense_total_of(levels_by_zoom(levels@, z as nat))
            } else {
                dense_cap()
            },
        decreases 256 - z,
    {
        let zz = z as u8;
        let ghost pz = |l: ZoomLevelTiles| l.zoom == zz;
        let ghost base = levels_by_zoom(levels@, z as nat);
        let mut j: usize = 0;
        proof {
            reveal(Seq::filter);
            assert(levels@.take(0).filter(pz) =~= Seq::<ZoomLevelTiles>::empty());
            assert(base + levels@.take(0).filter(pz) =~= base);
        }
        while j < levels.len()
            invariant
                j <= levels@.len(),
                levels_fit(levels@),
                pz == (|l: ZoomLevelTiles| l.zoom == zz),
                tallies@ == tallies_of(base + levels@.take(j as int).filter(pz)),
                dense as int == if dense_total_of(base + levels@.take(j as int).filter(pz))
                    <= dense_cap() {
                    dense_total_of(base + levels@.take(j as int).filter(pz))
                } else {
                    dense_cap()
                },
            decreases levels.len() - j,
        {
            let ghost before = base + levels@.take(j as int).filter(pz);
            proof {
                reveal(Seq::filter);
                assert(levels@.take(j + 1).drop_last() =~= levels@.take(j as int));
                assert(levels@.take(j + 1).last() == levels@[j as int]);
            }
            if levels[j].zoom == zz {
                let ghost after = before.push(levels@[j as int]);
                assert(base + levels@.take(j + 1).filter(pz) =~= after);
                assert(after.drop_last() =~= before);
                assert(tally_fits(levels@[j as int].tiles@));
                let (count, d) = tally_tiles(&levels[j].tiles);
                if count > 0 {
                    tallies.push(ZoomTally { zoom: zz, tiles: count });
                    dense = if dense + (d as u128) > 0x1_0000_0000_0000_0000u128 {
                        0x1_0000_0000_0000_0000u128
                    } else {
                        dense + (d as u128)
                    };
                }
            } else {
                assert(base + levels@.take(j + 1).filter(pz) =~= before);
            }
            j = j + 1;
        }
        proof {
            assert(levels@.take(j as int) =~= levels@);
            assert(levels_by_zoom(levels@, (z + 1) as nat) == base + levels@.filter(
                |l: ZoomLevelTiles| l.zoom == ((z + 1) - 1) as u8,
            ));
            assert((|l: ZoomLevelTiles| l.zoom == ((z + 1) - 1) as u8) =~= pz);
        }
        z = z + 1;
    }
    (tallies, dense)
}


/// The per-zoom tallies of a generated pyramid, ordered by zoom, and the tiles a dense
/// pyramid over the same boxes would have had.
pub fn count_tiles_from(levels: &Vec<ZoomLevelTiles>) -> (r: (Vec<ZoomTally>, u64))
    requires
        levels_fit(levels@),
        dense_total_of(levels_by_zoom(levels@, 256)) <= u64::MAX,
    ensures
        r.0@ == tallies_of(levels_by_zoom(levels@, 256)),
        r.1 == dense_total_of(levels_by_zoom(levels@, 256)),
{
    let (t, d) = tally_levels(levels);
    (t, d as u64)
}

/// The bounding box of the tiles of one zoom level: least and greatest `x`, then `y`.
fn level_box(tiles: &Vec<(u32, u32)>) -> (r: (u32, u32, u32, u32))
    requires
        tiles@.len() > 0,
    ensures
        r.0 == min_coord(tiles@, true),
        r.1 == max_coord(tiles@, true),
        r.2 == min_coord(tiles@, false),
        r.3 == max_coord(tiles@, false),
{
    let mut min_x = tiles[0].0;
    let mut max_x = tiles[0].0;
    let mut min_y = tiles[0].1;
    let mut max_y = tiles[0].1;
    let mut i: usize = 1;
    assert(tiles@.take(1).drop_last() =~= Seq::<(u32, u32)>::empty());
    while i < tiles.len()
        invariant
            1 <= i <= tiles@.len(),
            min_x == min_coord(tiles@.take(i as int), true),
            max_x == max_coord(tiles@.take(i as int), true),
            min_y == min_coord(tiles@.take(i as int), false),
            max_y == max_coord(tiles@.take(i as int), false),
        decreases tiles.len() - i,
    {
        assert(tiles@.take(i + 1).drop_last() =~= tiles@.take(i as int));
        let (x, y) = tiles[i];
        if x < min_x {
            min_x = x;
        }
        if x > max_x {
            max_x = x;
        }
        if y < min_y {
            min_y = y;
        }
        if y > max_y {
            max_y = y;
        }
        i = i + 1;
    }
    assert(tiles@.take(i as int) =~= tiles@);
    (min_x, max_x, min_y, max_y)
}

/// Whether every level's bounding box fits the tally's counters.
fn levels_fit_exec(levels: &Vec<ZoomLevelTiles>) -> (r: bool)
    ensures
        r == levels_fit(levels@),
{
    let mut i: usize = 0;
    while i < levels.len()
        invariant
            i <= levels@.len(),
            forall|j: int| 0 <= j < i ==> tally_fits(#[trigger] levels@[j].tiles@),
        decreases levels.len() - i,
    {
        if levels[i].tiles.len() > 0 {
            let (a, b, c, d) = level_box(&levels[i].tiles);
            proof {
                lemma_coord_bounds(levels@[i as int].tiles@, true);
                lemma_coord_bounds(levels@[i as int].tiles@, false);
            }
            if b - a == u32::MAX || d - c == u32::MAX {
                assert(!tally_fits(levels@[i as int].tiles@));
                return false;
            }
        }
        i = i + 1;
    }
    true
}

/// The tiles of the tallies, summed.
pub open spec fn tally_sum(t: Seq<ZoomTally>) -> int
    decreases t.len(),
{
    if t.len() == 0 {
        0
    } else {
        tally_sum(t.drop_last()) + t.last().tiles
    }
}

/// The tiles of the tallies, summed up to `2^64`.
fn tally_sum_capped(t: &Vec<ZoomTally>) -> (r: u128)
    ensures
        r == if tally_sum(t@) <= dense_cap() {
            tally_sum(t@)
        } else {
            dense_cap()
        },
{
    let mut acc: u128 = 0;
    let mut i: usize = 0;
    while i < t.len()
        invariant
            i <= t@.len(),
            acc == if tally_sum(t@.take(i as int)) <= dense_cap() {
                tally_sum(t@.take(i as int))
            } else {
                dense_cap()
            },
        decreases t.len() - i,
    {
        proof {
            assert(t@.take(i + 1).drop_last() =~= t@.take(i as int));
            lemma_tally_sum_nonneg(t@.take(i as int));
        }
        let n = t[i].tiles as u128;
        acc = if acc + n > 0x1_0000_0000_0000_0000u128 {
            0x1_0000_0000_0000_0000u128
        } else {
            acc + n
        };
        i = i + 1;
    }
    assert(t@.take(i as int) =~= t@);
    acc
}

proof fn lemma_tally_sum_nonneg(t: Seq<ZoomTally>)
    ensures
        tally_sum(t) >= 0,
    decreases t.len(),
{
    if t.len() > 0 {
        lemma_tally_sum_nonneg(t.drop_last());
    }
}

/// Every tile of a level lies in its bounding box.
proof fn lemma_in_box(t: Seq<(u32, u32)>, i: int)
    requires
        0 <= i < t.len(),
    ensures
        min_coord(t, true) <= t[i].0 <= max_coord(t, true),
        min_coord(t, false) <= t[i].1 <= max_coord(t, false),
    decreases t.len(),
{
    if t.len() > 1 && i < t.len() - 1 {
        lemma_in_box(t.drop_last(), i);
        assert(t.drop_last()[i] == t[i]);
    }
}

/// The position of a tile inside a box `h` tiles high whose corner is `(mx, my)`.
pub open spec fn box_index(p: (u32, u32), mx: int, my: int, h: int) -> int {
    (p.0 - mx) * h + (p.1 - my)
}

/// A level whose tiles are all different has no more tiles than its bounding box spans.
pub proof fn lemma_level_bound(t: Seq<(u32, u32)>)
    requires
        t.len() > 0,
        t.no_duplicates(),
    ensures
        t.len() <= dense_count(t),
{
    let mx = min_coord(t, true);
    let my = min_coord(t, false);
    let w = max_coord(t, true) - mx + 1;
    let h = max_coord(t, false) - my + 1;
    lemma_coord_bounds(t, true);
    lemma_coord_bounds(t, false);
    let f = |p: (u32, u32)| box_index(p, mx, my, h);
    let s = t.to_set();
    t.unique_seq_to_set();
    vstd::seq_lib::seq_to_set_is_finite(t);
    assert forall|p: (u32, u32), q: (u32, u32)|
        s.contains(p) && s.contains(q) && #[trigger] f(p) == #[trigger] f(q) implies p == q by {
        let i = choose|i: int| 0 <= i < t.len() && t[i] == p;
        let j = choose|j: int| 0 <= j < t.len() && t[j] == q;
        lemma_in_box(t, i);
        lemma_in_box(t, j);
        vstd::arithmetic::div_mod::lemma_fundamental_div_mod_converse(f(p), h, p.0 - mx, p.1 - my);
        vstd::arithmetic::div_mod::lemma_fundamental_div_mod_converse(f(q), h, q.0 - mx, q.1 - my);
    }
    let img = s.map(f);
    vstd::set_lib::lemma_map_size(s, img, f);
    assert(w * h >= 0) by (nonlinear_arith)
        requires
            w >= 1,
            h >= 1,
    ;
    let range = vstd::set_lib::set_int_range(0, w * h);
    vstd::set_lib::lemma_int_range(0, w * h);
    assert forall|v: int| img.contains(v) implies range.contains(v) by {
        let p = choose|p: (u32, u32)| s.contains(p) && f(p) == v;
        let i = choose|i: int| 0 <= i < t.len() && t[i] == p;
        lemma_in_box(t, i);
        let a = p.0 - mx;
        let b = p.1 - my;
        assert(0 <= a * h + b < w * h) by (nonlinear_arith)
            requires
                0 <= a < w,
                0 <= b < h,
        ;
    }
    vstd::set_lib::lemma_len_subset(img, range);
}

/// Every level of `levels_by_zoom` is one of the levels.
proof fn lemma_by_zoom_members(levels: Seq<ZoomLevelTiles>, n: nat)
    ensures
        forall|k: int|
            0 <= k < levels_by_zoom(levels, n).len() ==> levels.contains(
                #[trigger] levels_by_zoom(levels, n)[k],
            ),
    decreases n,
{
    if n > 0 {
        lemma_by_zoom_members(levels, (n - 1) as nat);
        let prev = levels_by_zoom(levels, (n - 1) as nat);
        let pz = |l: ZoomLevelTiles| l.zoom == (n - 1) as u8;
        let part = levels.filter(pz);
        assert forall|k: int| 0 <= k < levels_by_zoom(levels, n).len() implies levels.contains(
            #[trigger] levels_by_zoom(levels, n)[k],
        ) by {
            if k >= prev.len() {
                let e = part[k - prev.len()];
                assert(part.contains(e));
                levels.lemma_filter_contains_rev(pz, e);
            }
        }
    }
}

/// Every level's tiles are all different.
pub open spec fn levels_distinct(levels: Seq<ZoomLevelTiles>) -> bool {
    forall|i: int| 0 <= i < levels.len() ==> (#[trigger] levels[i]).tiles@.no_duplicates()
}

/// With every level's tiles different, the tiles tallied are no more than the dense total.
proof fn lemma_sum_le_dense(l: Seq<ZoomLevelTiles>)
    requires
        levels_distinct(l),
    ensures
        tally_sum(tallies_of(l)) <= dense_total_of(l),
    decreases l.len(),
{
    if l.len() > 0 {
        let rest = l.drop_last();
        assert forall|i: int| 0 <= i < rest.len() implies (#[trigger] rest[i]).tiles@.no_duplicates() by {
            assert(rest[i] == l[i]);
        }
        lemma_sum_le_dense(rest);
        if l.last().tiles@.len() > 0 {
            assert(l.last() == l[l.len() - 1]);
            lemma_level_bound(l.last().tiles@);
            let t = tallies_of(rest).push(
                ZoomTally { zoom: l.last().zoom, tiles: l.last().tiles@.len() as u64 },
            );
            assert(t.drop_last() =~= tallies_of(rest));
        }
    }
}

/// Law of counting: when no tile of a level repeats, the tiles written are no more than
/// the dense total, so the empty tiles skipped are exactly the difference.
pub proof fn tiles_within_dense_total(levels: Seq<ZoomLevelTiles>)
    requires
        levels_distinct(levels),
    ensures
        tally_sum(tallies_of(levels_by_zoom(levels, 256))) <= dense_total_of(
            levels_by_zoom(levels, 256),
        ),
{
    let l = levels_by_zoom(levels, 256);
    lemma_by_zoom_members(levels, 256);
    assert forall|k: int| 0 <= k < l.len() implies (#[trigger] l[k]).tiles@.no_duplicates() by {
        assert(levels.contains(l[k]));
        let i = choose|i: int| 0 <= i < levels.len() && levels[i] == l[k];
    }
    lemma_sum_le_dense(l);
}

/// What counting a generated pyramid gives: the per-zoom tallies (ordered by zoom), the
/// tiles written (their sum), the dense total and the empty tiles skipped.
pub struct TileCount {
    pub per_zoom: Vec<ZoomTally>,
    pub tiles_total: u64,
    pub dense_total: u64,
    pub empty_skipped: u64,
}

/// The counters of a pyramid's count fit: every level's box, the dense total and the
/// tiles written.
pub open spec fn counts_fit(levels: Seq<ZoomLevelTiles>) -> bool {
    &&& levels_fit(levels)
    &&& dense_total_of(levels_by_zoom(levels, 256)) <= u64::MAX
    &&& tally_sum(tallies_of(levels_by_zoom(levels, 256))) <= u64::MAX
}

/// Count a generated pyramid from the tiles found per zoom level: the per-zoom tallies
/// ordered by zoom, the tiles written (the sum of the tallies), the dense total over each
/// level's bounding box, and the empty tiles skipped (the dense total beyond the tiles
/// written); `None` when a counter would overflow.
pub fn tile_count(levels: &Vec<ZoomLevelTiles>) -> (r: Option<TileCount>)
    ensures
        r is None <==> !counts_fit(levels@),
        r matches Some(c) ==> {
            let l = levels_by_zoom(levels@, 256);
            &&& c.per_zoom@ == tallies_of(l)
            &&& c.tiles_total == tally_sum(c.per_zoom@)
            &&& c.dense_total == dense_total_of(l)
            &&& c.empty_skipped == if c.dense_total >= c.tiles_total {
                c.dense_total - c.tiles_total
            } else {
                0
            }
            &&& levels_distinct(levels@) ==> c.tiles_total <= c.dense_total
        },
{
    if !levels_fit_exec(levels) {
        return None;
    }
    let (per_zoom, dense) = tally_levels(levels);
    if dense > 0xffff_ffff_ffff_ffffu128 {
        return None;
    }
    let total = tally_sum_capped(&per_zoom);
    if total > 0xffff_ffff_ffff_ffffu128 {
        return None;
    }
    let tiles_total = total as u64;
    let dense_total = dense as u64;
    let skipped = empty_skipped(dense_total, tiles_total);
    proof {
        if levels_distinct(levels@) {
            tiles_within_dense_total(levels@);
        }
    }
    Some(TileCount { per_zoom, tiles_total, dense_total, empty_skipped: skipped })
}

/// The `y` of a tile file `{y}.{ext}`, when the name is one.
pub open spec fn tile_row_of(name: Seq<char>, ext: Seq<char>) -> Option<nat> {
    let suffix = seq!['.'] + ext;
    if crate::text::ends_with(name, suffix) {
        crate::text::parse_uint(name.take(name.len() - suffix.len()), u32::MAX as nat)
    } else {
        None
    }
}

/// The row of a tile file named `{y}.{ext}`.
pub fn tile_row(name: &str, ext: &str) -> (r: Option<u32>)
    ensures
        r is None <==> tile_row_of(name@, ext@) is None,
        r matches Some(y) ==> tile_row_of(name@, ext@) == Some(y as nat),
{
    let v = chars_of(name);
    proof {
        reveal_strlit(".");
    }
    let dotted = concat2(".", ext);
    let suffix = chars_of(dotted.as_str());
    assert(dotted@ == seq!['.'] + ext@);
    if !crate::text::ends_with_str(&v, dotted.as_str()) {
        return None;
    }
    let n = v.len() - suffix.len();
    assert(v@.subrange(0, n as int) =~= v@.take(n as int));
    match crate::text::parse_uint_range(&v, 0, n, 0xffff_ffff) {
        Some(y) => Some(y as u32),
        None => None,
    }
}

/// A directory named after a zoom level or a column: its number, when the name is one.
pub fn dir_number(name: &str, max: u32) -> (r: Option<u32>)
    ensures
        r is None <==> crate::text::parse_uint(name@, max as nat) is None,
        r matches Some(n) ==> crate::text::parse_uint(name@, max as nat) == Some(n as nat),
{
    let v = chars_of(name);
    match crate::text::parse_uint_vec(&v, max as u64) {
        Some(n) => Some(n as u32),
        None => None,
    }
}

// ---------------------------------------------------------------------------
// MBTiles metadata
// ---------------------------------------------------------------------------

/// What a custom projected grid adds to the metadata, its numbers already written out.
pub struct GridParamsText {
    pub tile_size: u32,
    /// `x,y` of the top-left tile origin.
    pub tile_origin: String,
    /// The per-zoom resolutions, comma-separated.
    pub resolutions: String,
    /// `min_x,min_y,max_x,max_y` in the grid's own units.
    pub bounds_crs: String,
    pub proj4: Option<String>,
}

/// The metadata of a grid's MBTiles, so a tile server can build a correct TileJSON:
/// the fixed entries, then what a custom-grid client needs.
pub open spec fn metadata_spec(
    name: Seq<char>,
    format: TileFormat,
    grid: TileGrid,
    min: u8,
    max: u8,
    bounds: Seq<char>,
    center: Seq<char>,
    params: Option<GridParamsText>,
) -> Seq<(Seq<char>, Seq<char>)> {
    seq![
        ("name"@, name),
        ("format"@, format_ext(format)),
        ("type"@, "overlay"@),
        ("version"@, "1.0"@),
        ("description"@, "Generated by Martin Tile Map Studio in "@ + grid_label(grid)),
        ("minzoom"@, decimal(min as nat)),
        ("maxzoom"@, decimal(max as nat)),
        ("bounds"@, bounds),
        ("center"@, center + ","@ + decimal(min as nat)),
        ("crs"@, epsg_text(grid_epsg(grid))),
    ] + match params {
        Some(p) => seq![
            ("scheme"@, "xyz"@),
            ("tile_size"@, decimal(p.tile_size as nat)),
            ("tile_origin"@, p.tile_origin@),
            ("resolutions"@, p.resolutions@),
            ("bounds_crs"@, p.bounds_crs@),
        ] + match p.proj4 {
            Some(x) => seq![("crs_proj4"@, x@)],
            None => Seq::empty(),
        },
        None => Seq::empty(),
    }
}

/// Push a `(key, value)` metadata pair.
fn push_pair(pairs: &mut Vec<(String, String)>, key: &str, value: String)
    ensures
        crate::gdalenv::env_views(final(pairs)@) == crate::gdalenv::env_views(old(pairs)@).push(
            (key@, value@),
        ),
{
    let ghost before = crate::gdalenv::env_views(pairs@);
    let ghost vv = value@;
    pairs.push((key.to_string(), value));
    assert(crate::gdalenv::env_views(pairs@) =~= before.push((key@, vv)));
}

/// The metadata pairs of a grid's MBTiles. `bounds` is `min_x,min_y,max_x,max_y` and
/// `center` is `lon,lat`, both in WGS84.
pub fn metadata_pairs(
    name: &str,
    format: TileFormat,
    grid: TileGrid,
    min: u8,
    max: u8,
    bounds: String,
    center: &str,
    params: Option<GridParamsText>,
) -> (r: Vec<(String, String)>)
    ensures
        crate::gdalenv::env_views(r@) == metadata_spec(
            name@,
            format,
            grid,
            min,
            max,
            bounds@,
            center@,
            params,
        ),
{
    let ghost pv = params;
    let mut pairs: Vec<(String, String)> = Vec::new();
    push_pair(&mut pairs, "name", name.to_string());
    push_pair(&mut pairs, "format", format.ext().to_string());
    push_pair(&mut pairs, "type", "overlay".to_string());
    push_pair(&mut pairs, "version", "1.0".to_string());
    let label = grid.label();
    push_pair(
        &mut pairs,
        "description",
        concat2("Generated by Martin Tile Map Studio in ", label.as_str()),
    );
    push_pair(&mut pairs, "minzoom", crate::text::decimal_string(min as u64));
    push_pair(&mut pairs, "maxzoom", crate::text::decimal_string(max as u64));
    push_pair(&mut pairs, "bounds", bounds);
    let mut c = chars_of(center);
    push_str(&mut c, ",");
    push_decimal(&mut c, min as u64);
    push_pair(&mut pairs, "center", string_of(&c));
    push_pair(&mut pairs, "crs", epsg_string(grid.epsg()));
    proof {
        reveal_strlit("overlay");
        reveal_strlit("1.0");
        reveal_strlit(",");
    }
    let ghost head = crate::gdalenv::env_views(pairs@);
    match params {
        Some(p) => {
            push_pair(&mut pairs, "scheme", "xyz".to_string());
            push_pair(&mut pairs, "tile_size", crate::text::decimal_string(p.tile_size as u64));
            push_pair(&mut pairs, "tile_origin", p.tile_origin);
            push_pair(&mut pairs, "resolutions", p.resolutions);
            push_pair(&mut pairs, "bounds_crs", p.bounds_crs);
            proof {
                reveal_strlit("xyz");
            }
            let ghost mid = crate::gdalenv::env_views(pairs@);
            match p.proj4 {
                Some(x) => {
                    let ghost xv = x@;
                    push_pair(&mut pairs, "crs_proj4", x);
                    assert(crate::gdalenv::env_views(pairs@) =~= mid + seq![("crs_proj4"@, xv)]);
                },
                None => {
                    assert(crate::gdalenv::env_views(pairs@) =~= mid + Seq::<
                        (Seq<char>, Seq<char>),
                    >::empty());
                },
            }
        },
        None => {},
    }
    assert(crate::gdalenv::env_views(pairs@) =~= metadata_spec(
        name@,
        format,
        grid,
        min,
        max,
        bounds@,
        center@,
        pv,
    ));
    pairs
}

/// The value of the first entry with the given key, as a metadata table read by key
/// gives it.
pub open spec fn meta_value(pairs: Seq<(Seq<char>, Seq<char>)>, key: Seq<char>) -> Option<Seq<char>>
    decreases pairs.len(),
{
    if pairs.len() == 0 {
        None
    } else if pairs[0].0 == key {
        Some(pairs[0].1)
    } else {
        meta_value(pairs.drop_first(), key)
    }
}

/// The first entry with key `key` is the one at `i` when no earlier entry has that key.
proof fn lemma_meta_value_at(pairs: Seq<(Seq<char>, Seq<char>)>, key: Seq<char>, i: int)
    requires
        0 <= i < pairs.len(),
        pairs[i].0 == key,
        forall|j: int| 0 <= j < i ==> (#[trigger] pairs[j]).0 != key,
    ensures
        meta_value(pairs, key) == Some(pairs[i].1),
    decreases i,
{
    if i > 0 {
        let rest = pairs.drop_first();
        assert forall|j: int| 0 <= j < i - 1 implies (#[trigger] rest[j]).0 != key by {
            assert(rest[j] == pairs[j + 1]);
        }
        assert(pairs[0].0 != key);
        lemma_meta_value_at(rest, key, i - 1);
    }
}

/// The decimal text of a number is all digits and reads back as that number.
proof fn lemma_decimal_reads_back(n: nat)
    ensures
        crate::text::all_digits(decimal(n)),
        crate::text::digits_value(decimal(n)) == n,
{
    crate::text::lemma_decimal_digits(n);
    crate::registry::lemma_decimal_value(n);
}

/// Law: read by key, the metadata of a grid's MBTiles gives a `minzoom` that is the
/// decimal text of the lowest zoom requested and a `maxzoom` that is the decimal text of
/// the highest, so the archive never claims another zoom range than the one it was
/// generated for.
pub proof fn metadata_zoom_range_reads_back(
    name: Seq<char>,
    format: TileFormat,
    grid: TileGrid,
    min: u8,
    max: u8,
    bounds: Seq<char>,
    center: Seq<char>,
    params: Option<GridParamsText>,
)
    ensures
        ({
            let m = metadata_spec(name, format, grid, min, max, bounds, center, params);
            &&& meta_value(m, "minzoom"@) matches Some(v) && crate::text::all_digits(v)
                && crate::text::digits_value(v) == min
            &&& meta_value(m, "maxzoom"@) matches Some(v) && crate::text::all_digits(v)
                && crate::text::digits_value(v) == max
        }),
{
    let m = metadata_spec(name, format, grid, min, max, bounds, center, params);
    reveal_strlit("name");
    reveal_strlit("format");
    reveal_strlit("type");
    reveal_strlit("version");
    reveal_strlit("description");
    reveal_strlit("minzoom");
    reveal_strlit("maxzoom");
    assert(m[0].0 == "name"@);
    assert(m[1].0 == "format"@);
    assert(m[2].0 == "type"@);
    assert(m[3].0 == "version"@);
    assert(m[4].0 == "description"@);
    assert(m[5] == ("minzoom"@, decimal(min as nat)));
    assert(m[6] == ("maxzoom"@, decimal(max as nat)));
    assert("name"@ != "minzoom"@ && "format"@ != "minzoom"@ && "type"@ != "minzoom"@);
    assert("version"@[0] != "minzoom"@[0] && "description"@.len() != "minzoom"@.len());
    assert("name"@ != "maxzoom"@ && "format"@ != "maxzoom"@ && "type"@ != "maxzoom"@);
    assert("version"@[0] != "maxzoom"@[0] && "description"@.len() != "maxzoom"@.len());
    assert("minzoom"@[1] != "maxzoom"@[1]);
    assert forall|j: int| 0 <= j < 5 implies (#[trigger] m[j]).0 != "minzoom"@ by {}
    assert forall|j: int| 0 <= j < 6 implies (#[trigger] m[j]).0 != "maxzoom"@ by {}
    lemma_meta_value_at(m, "minzoom"@, 5);
    lemma_meta_value_at(m, "maxzoom"@, 6);
    lemma_decimal_reads_back(min as nat);
    lemma_decimal_reads_back(max as nat);
}

/// Empty tiles skipped: the dense count beyond the tiles written (none when fewer).
pub fn empty_skipped(dense_total: u64, tiles_total: u64) -> (r: u64)
    ensures
        r == if dense_total >= tiles_total {
            dense_total - tiles_total
        } else {
            0
        },
{
    dense_total.saturating_sub(tiles_total)
}

} // verus!
