//! The desktop catalog of generated maps: which files are tile maps, what an MBTiles'
//! metadata says about it, where an imported map is copied without overwriting, which
//! deletions stay inside the maps folder, and the URLs a source is served at.

use vstd::prelude::*;
use crate::paths::{joined, path_exists, path_join, plain_name, split_stem_ext, stem_ext};
use crate::text::{
    chars_of, concat2, decimal, lower_seq, lower_vec, opt_view, parse_uint, push_decimal,
    push_str, string_of,
};

verus! {

/// The kind of a tile-map file, by its extension (ASCII case ignored).
#[derive(Clone, Copy, Debug, PartialEq, Eq, Structural)]
pub enum MapKind {
    /// An `.mbtiles` archive.
    Mbtiles,
    /// A `.tif` / `.tiff` Cloud-Optimized GeoTIFF.
    Cog,
}

/// The kind of a file, by its extension.
pub open spec fn map_kind_of(name: Seq<char>) -> Option<MapKind> {
    match stem_ext(name).1 {
        Some(e) => if lower_seq(e) == "mbtiles"@ {
            Some(MapKind::Mbtiles)
        } else if lower_seq(e) == "tif"@ || lower_seq(e) == "tiff"@ {
            Some(MapKind::Cog)
        } else {
            None
        },
        None => None,
    }
}

/// The lower-cased extension of a file name (empty when it has none).
fn lower_ext(name: &str) -> (r: Vec<char>)
    ensures
        r@ == match stem_ext(name@).1 {
            Some(e) => lower_seq(e),
            None => Seq::<char>::empty(),
        },
{
    let (_stem, ext) = split_stem_ext(name);
    match ext {
        Some(e) => lower_vec(&chars_of(e.as_str())),
        None => Vec::new(),
    }
}

/// The kind of a file of the maps folder, if it is a tile map.
pub fn map_kind(name: &str) -> (r: Option<MapKind>)
    ensures
        r == map_kind_of(name@),
{
    let l = lower_ext(name);
    proof {
        reveal_strlit("mbtiles");
        reveal_strlit("tif");
        reveal_strlit("tiff");
    }
    let (_stem, ext) = split_stem_ext(name);
    if ext.is_none() {
        return None;
    }
    if crate::decimal::eq_chars(&l, &chars_of("mbtiles")) {
        Some(MapKind::Mbtiles)
    } else if crate::decimal::eq_chars(&l, &chars_of("tif")) || crate::decimal::eq_chars(
        &l,
        &chars_of("tiff"),
    ) {
        Some(MapKind::Cog)
    } else {
        None
    }
}

/// The tile encoding a source reports, variant for variant as `martin_tile_utils::Format`
/// has them.
#[derive(Clone, Copy, Debug, PartialEq, Eq, Structural)]
pub enum TileEncoding {
    Gif,
    Jpeg,
    Json,
    Mvt,
    Mlt,
    Png,
    Webp,
    Avif,
}

/// The catalog's format label of a tile encoding: `png`, `jpeg` and `webp` are shown as
/// such, anything else as `cog`.
pub open spec fn encoding_label(e: TileEncoding) -> Seq<char> {
    match e {
        TileEncoding::Png => "png"@,
        TileEncoding::Jpeg => "jpeg"@,
        TileEncoding::Webp => "webp"@,
        _ => "cog"@,
    }
}

/// The format label the catalog shows for a COG's tile encoding.
pub fn format_label(e: TileEncoding) -> (r: String)
    ensures
        r@ == encoding_label(e),
{
    proof {
        reveal_strlit("png");
        reveal_strlit("jpeg");
        reveal_strlit("webp");
        reveal_strlit("cog");
    }
    match e {
        TileEncoding::Png => "png".to_string(),
        TileEncoding::Jpeg => "jpeg".to_string(),
        TileEncoding::Webp => "webp".to_string(),
        _ => "cog".to_string(),
    }
}

/// What the catalog shows of an MBTiles, apart from its bounds, size and date.
pub struct MbtilesEntry {
    pub source_id: String,
    pub name: String,
    pub format: String,
    pub crs: Option<String>,
    pub min_zoom: Option<u32>,
    pub max_zoom: Option<u32>,
    pub tiles_total: Option<u64>,
}

/// What the archive said: each metadata value that could be read, and the tile count.
pub struct MbtilesMeta {
    pub name: Option<String>,
    pub format: Option<String>,
    pub crs: Option<String>,
    pub minzoom: Option<String>,
    pub maxzoom: Option<String>,
    pub tile_count: Option<i64>,
}

/// A zoom from metadata text, when it parses as `u32`.
pub open spec fn meta_zoom(v: Option<Seq<char>>) -> Option<nat> {
    match v {
        Some(s) => parse_uint(s, u32::MAX as nat),
        None => None,
    }
}

/// Parse a metadata zoom.
fn zoom_of(v: &Option<String>) -> (r: Option<u32>)
    ensures
        r is None <==> meta_zoom(opt_view(*v)) is None,
        r matches Some(z) ==> meta_zoom(opt_view(*v)) == Some(z as nat),
{
    match v {
        Some(s) => match crate::text::parse_uint_vec(&chars_of(s.as_str()), 0xffff_ffff) {
            Some(z) => Some(z as u32),
            None => None,
        },
        None => None,
    }
}

/// The catalog entry of an MBTiles with file stem `stem`: served under its stem, named
/// by its metadata (when not empty, else the stem), `png` unless the metadata gives a
/// format, with the metadata CRS and zooms (when they parse) and the tile count (as
/// counted, reinterpreted unsigned).
pub fn mbtiles_entry(stem: &str, meta: &MbtilesMeta) -> (r: MbtilesEntry)
    ensures
        r.source_id@ == stem@,
        r.name@ == match meta.name {
            Some(n) => if n@.len() > 0 {
                n@
            } else {
                stem@
            },
            None => stem@,
        },
        r.format@ == match meta.format {
            Some(f) => f@,
            None => "png"@,
        },
        opt_view(r.crs) == opt_view(meta.crs),
        r.min_zoom is None <==> meta_zoom(opt_view(meta.minzoom)) is None,
        r.min_zoom matches Some(z) ==> meta_zoom(opt_view(meta.minzoom)) == Some(z as nat),
        r.max_zoom is None <==> meta_zoom(opt_view(meta.maxzoom)) is None,
        r.max_zoom matches Some(z) ==> meta_zoom(opt_view(meta.maxzoom)) == Some(z as nat),
        r.tiles_total == match meta.tile_count {
            Some(n) => Some(n as u64),
            None => None::<u64>,
        },
{
    proof {
        reveal_strlit("png");
    }
    let name = match &meta.name {
        Some(n) => if n.as_str().is_empty() {
            stem.to_string()
        } else {
            n.clone()
        },
        None => stem.to_string(),
    };
    let format = match &meta.format {
        Some(f) => f.clone(),
        None => "png".to_string(),
    };
    let crs = match &meta.crs {
        Some(c) => Some(c.clone()),
        None => None,
    };
    let tiles_total = match meta.tile_count {
        Some(n) => Some(n as u64),
        None => None,
    };
    MbtilesEntry {
        source_id: stem.to_string(),
        name,
        format,
        crs,
        min_zoom: zoom_of(&meta.minzoom),
        max_zoom: zoom_of(&meta.maxzoom),
        tiles_total,
    }
}

// ---------------------------------------------------------------------------
// importing and deleting
// ---------------------------------------------------------------------------

/// The refusal of a file that is not a tile map.
pub open spec fn not_importable() -> Seq<char> {
    "only .mbtiles / .tif / .tiff can be imported"@
}

/// The `n`-th name an imported copy may take: `{stem}-imported.{ext}`, then
/// `{stem}-imported-{n}.{ext}`.
pub open spec fn imported_name(stem: Seq<char>, ext: Seq<char>, n: nat) -> Seq<char> {
    if n == 1 {
        stem + "-imported."@ + ext
    } else {
        stem + "-imported-"@ + decimal(n) + "."@ + ext
    }
}

/// The `n`-th alternative destination of an imported map inside `dir`.
fn imported_dest(dir: &str, file_name: &str, stem: &String, ext: &Vec<char>, n: u32) -> (r: String)
    requires
        plain_name(file_name@),
        map_kind_of(file_name@) is Some,
        stem_ext(file_name@).1 is Some,
        stem@ == stem_ext(file_name@).0,
        ext@ == lower_seq(stem_ext(file_name@).1->0),
        no_separator(stem@),
        no_separator(ext@),
    ensures
        joined(r@, dir@, imported_name(stem_ext(file_name@).0, lower_seq(stem_ext(file_name@).1->0), n as nat)),
{
    let mut c = chars_of(stem.as_str());
    if n == 1 {
        push_str(&mut c, "-imported.");
    } else {
        push_str(&mut c, "-imported-");
        push_decimal(&mut c, n as u64);
        push_str(&mut c, ".");
    }
    crate::text::push_all(&mut c, ext);
    proof {
        reveal_strlit("-imported.");
        reveal_strlit("-imported-");
        reveal_strlit(".");
        lemma_imported_plain(stem@, ext@, n as nat);
    }
    let name = string_of(&c);
    assert(name@ == imported_name(stem@, ext@, n as nat));
    path_join(dir, name.as_str())
}

/// Where an imported map named `file_name` goes inside `dir`, given the answers `taken`
/// (whether its own name, then `{stem}-imported[-n].{ext}` for n = 1, 2, ..., exist):
/// refused unless it is a tile map; else the first one answered free, its own name when
/// none was.
pub open spec fn import_outcome(dir: Seq<char>, file_name: Seq<char>, taken: Seq<bool>, r: Result<String, String>) -> bool {
    &&& (map_kind_of(file_name) is None ==> (r matches Err(e) && e@ == not_importable()))
    &&& (map_kind_of(file_name) is Some ==> (r matches Ok(d) && match crate::gdalenv::first_true(
        taken.map_values(|b: bool| !b),
    ) {
        Some(i) => if i == 0 {
            joined(d@, dir, file_name)
        } else {
            joined(
                d@,
                dir,
                imported_name(stem_ext(file_name).0, lower_seq(stem_ext(file_name).1->0), i as nat),
            )
        },
        None => joined(d@, dir, file_name),
    }))
}

/// Where an imported map named `file_name` is copied inside `dir`, given the answers
/// `taken` (whether its own name, then `{stem}-imported[-n].{ext}` for n = 1, 2, ...,
/// exist, in order): refused unless it is a tile map; else the first one answered free,
/// its own name when none was.
pub fn import_dest_choice(dir: &str, file_name: &str, taken: &Vec<bool>) -> (r: Result<String, String>)
    requires
        plain_name(file_name@),
        taken@.len() <= 0xffff_ffff,
    ensures
        import_outcome(dir@, file_name@, taken@, r),
{
    if map_kind(file_name).is_none() {
        proof {
            reveal_strlit("only .mbtiles / .tif / .tiff can be imported");
        }
        return Err("only .mbtiles / .tif / .tiff can be imported".to_string());
    }
    let ghost free = taken@.map_values(|b: bool| !b);
    proof {
        crate::gdalenv::lemma_first_true(free);
        lemma_stem_plain(file_name@);
    }
    let (stem, _e) = split_stem_ext(file_name);
    let ext = lower_ext(file_name);
    let mut i: usize = 0;
    while i < taken.len()
        invariant
            i <= taken@.len(),
            taken@.len() <= 0xffff_ffff,
            plain_name(file_name@),
            map_kind_of(file_name@) is Some,
            stem_ext(file_name@).1 is Some,
            stem@ == stem_ext(file_name@).0,
            ext@ == lower_seq(stem_ext(file_name@).1->0),
            no_separator(stem@),
            no_separator(ext@),
            free == taken@.map_values(|b: bool| !b),
            forall|j: int| 0 <= j < i ==> !free[j],
            crate::gdalenv::first_true(free) is None <==> forall|j: int| 0 <= j < free.len() ==> !free[j],
            crate::gdalenv::first_true(free) matches Some(k) ==> 0 <= k < free.len() && free[k]
                && forall|j: int| 0 <= j < k ==> !free[j],
        decreases taken.len() - i,
    {
        if !taken[i] {
            assert(free[i as int]);
            assert(crate::gdalenv::first_true(free) == Some(i as int));
            if i == 0 {
                return Ok(path_join(dir, file_name));
            }
            return Ok(imported_dest(dir, file_name, &stem, &ext, i as u32));
        }
        assert(!free[i as int]);
        i = i + 1;
    }
    Ok(path_join(dir, file_name))
}

/// Where an imported map is copied inside `dir`, given its file name: refused unless it
/// is a tile map; else its own name, then `{stem}-imported[-n].{ext}` (extension
/// lower-cased) for n = 1, 2, ..., are probed until one is free (the file system answers
/// each probe), and `import_dest_choice` picks from the answers.
pub fn import_dest(dir: &str, file_name: &str) -> (r: Result<String, String>)
    requires
        plain_name(file_name@),
    ensures
        exists|taken: Seq<bool>|
            crate::gdalenv::lazy_answers(taken.map_values(|b: bool| !b), 0xffff_ffff)
                && import_outcome(dir@, file_name@, taken, r),
        map_kind_of(file_name@) is None ==> (r matches Err(e) && e@ == not_importable()),
        map_kind_of(file_name@) is Some ==> (r matches Ok(d) && (joined(d@, dir@, file_name@)
            || exists|n: nat|
            n >= 1 && joined(
                d@,
                dir@,
                imported_name(stem_ext(file_name@).0, lower_seq(stem_ext(file_name@).1->0), n),
            ))),
{
    let mut taken: Vec<bool> = Vec::new();
    if map_kind(file_name).is_some() {
        let dest = path_join(dir, file_name);
        let t0 = path_exists(dest.as_str());
        taken.push(t0);
        if t0 {
            proof {
                lemma_stem_plain(file_name@);
            }
            let (stem, _e) = split_stem_ext(file_name);
            let ext = lower_ext(file_name);
            let mut n: u32 = 1;
            while n < 0xffff_ffff
                invariant_except_break
                    forall|j: int| 0 <= j < taken@.len() ==> #[trigger] taken@[j],
                invariant
                    1 <= n <= 0xffff_ffff,
                    taken@.len() == n,
                    plain_name(file_name@),
                    map_kind_of(file_name@) is Some,
                    stem_ext(file_name@).1 is Some,
                    stem@ == stem_ext(file_name@).0,
                    ext@ == lower_seq(stem_ext(file_name@).1->0),
                    no_separator(stem@),
                    no_separator(ext@),
                ensures
                    crate::gdalenv::lazy_answers(taken@.map_values(|b: bool| !b), 0xffff_ffff),
                decreases 0xffff_ffffu32 - n,
            {
                let cand = imported_dest(dir, file_name, &stem, &ext, n);
                let ghost before = taken@;
                let t = path_exists(cand.as_str());
                taken.push(t);
                n = n + 1;
                if !t {
                    proof {
                        let f = taken@.map_values(|b: bool| !b);
                        assert forall|j: int| 0 <= j < f.len() - 1 implies !#[trigger] f[j] by {
                            assert(taken@[j] == before[j]);
                        }
                    }
                    break;
                }
            }
        } else {
            assert(crate::gdalenv::lazy_answers(taken@.map_values(|b: bool| !b), 0xffff_ffff));
        }
    }
    let r = import_dest_choice(dir, file_name, &taken);
    proof {
        crate::gdalenv::lemma_first_true(taken@.map_values(|b: bool| !b));
        if map_kind_of(file_name@) is None {
            let w = seq![false];
            assert(w.map_values(|b: bool| !b) =~= seq![true]);
            assert(crate::gdalenv::lazy_answers(w.map_values(|b: bool| !b), 0xffff_ffff));
            assert(import_outcome(dir@, file_name@, w, r));
        }
    }
    r
}

/// No path separator or drive colon in `s`.
pub open spec fn no_separator(s: Seq<char>) -> bool {
    forall|i: int| 0 <= i < s.len() ==> #[trigger] s[i] != '/' && s[i] != '\\' && s[i] != ':'
}

/// The stem and the lower-cased extension of a plain name hold no separator.
proof fn lemma_stem_plain(name: Seq<char>)
    requires
        plain_name(name),
        stem_ext(name).1 is Some,
    ensures
        no_separator(stem_ext(name).0),
        no_separator(lower_seq(stem_ext(name).1->0)),
{
    let (s, e) = stem_ext(name);
    let k = crate::paths::last_dot(name)->0;
    lemma_last_dot_in(name);
    assert forall|i: int| 0 <= i < s.len() implies #[trigger] s[i] != '/' && s[i] != '\\' && s[i]
        != ':' by {
        assert(s[i] == name[i]);
    }
    let le = lower_seq(e->0);
    assert forall|i: int| 0 <= i < le.len() implies #[trigger] le[i] != '/' && le[i] != '\\'
        && le[i] != ':' by {
        assert((e->0)[i] == name[k + 1 + i]);
    }
}

/// The last dot is a position of the name.
proof fn lemma_last_dot_in(s: Seq<char>)
    ensures
        crate::paths::last_dot(s) matches Some(k) ==> 0 <= k < s.len(),
    decreases s.len(),
{
    if s.len() > 0 && s.last() != '.' {
        lemma_last_dot_in(s.drop_last());
    }
}

/// An imported name built from separator-free parts is a plain name.
proof fn lemma_imported_plain(stem: Seq<char>, ext: Seq<char>, n: nat)
    requires
        no_separator(stem),
        no_separator(ext),
    ensures
        plain_name(imported_name(stem, ext, n)),
{
    reveal_strlit("-imported.");
    reveal_strlit("-imported-");
    reveal_strlit(".");
    crate::text::lemma_decimal_digits(n);
    let m = imported_name(stem, ext, n);
    let d = decimal(n);
    assert forall|i: int| 0 <= i < m.len() implies #[trigger] m[i] != '/' && m[i] != '\\' && m[i]
        != ':' by {
        if i < stem.len() {
            assert(m[i] == stem[i]);
        } else if n == 1 {
            if i >= stem.len() + 10 {
                assert(m[i] == ext[i - stem.len() - 10]);
            }
        } else {
            if i >= stem.len() + 10 && i < stem.len() + 10 + d.len() {
                assert(m[i] == d[i - stem.len() - 10]);
                assert(crate::text::is_digit(d[i - stem.len() - 10]));
            } else if i > stem.len() + 10 + d.len() {
                assert(m[i] == ext[i - stem.len() - 11 - d.len()]);
            }
        }
    }
}

/// The refusal to delete a file outside the maps folder.
pub open spec fn outside_folder(p: Seq<char>) -> Seq<char> {
    "refusing to delete outside the maps folder: "@ + p
}

/// The verdict on deleting `p`: refused with the resolution error when it cannot be
/// resolved, or when its resolved path's directory is not the maps folder (`in_folder`,
/// as compared by the caller on resolved paths); else the resolved path to remove.
pub fn delete_verdict(p: &str, canon: Result<String, String>, in_folder: bool) -> (r: Result<String, String>)
    ensures
        match canon {
            Err(e) => r matches Err(x) && x@ == p@ + ": "@ + e@,
            Ok(c) => if in_folder {
                r matches Ok(x) && x@ == c@
            } else {
                r matches Err(x) && x@ == outside_folder(p@)
            },
        },
{
    proof {
        reveal_strlit(": ");
        reveal_strlit("refusing to delete outside the maps folder: ");
    }
    match canon {
        Err(e) => {
            let mut v = chars_of(p);
            push_str(&mut v, ": ");
            push_str(&mut v, e.as_str());
            Err(string_of(&v))
        },
        Ok(c) => if in_folder {
            Ok(c)
        } else {
            Err(concat2("refusing to delete outside the maps folder: ", p))
        },
    }
}

/// The sidecar removed with a deleted map: `{path}.aux.xml`.
pub fn sidecar_path(path: &str) -> (r: String)
    ensures
        r@ == path@ + ".aux.xml"@,
{
    proof {
        reveal_strlit(".aux.xml");
    }
    concat2(path, ".aux.xml")
}

// ---------------------------------------------------------------------------
// URLs
// ---------------------------------------------------------------------------

/// The tile URL template of a source: `{base}/{id}/{z}/{x}/{y}`.
pub open spec fn tile_url_spec(base: Seq<char>, id: Seq<char>) -> Seq<char> {
    base + "/"@ + id + "/{z}/{x}/{y}"@
}

/// The TileJSON URL of a source: `{base}/{id}.json`.
pub open spec fn tilejson_url_spec(base: Seq<char>, id: Seq<char>) -> Seq<char> {
    base + "/"@ + id + ".json"@
}

/// The tile and TileJSON URLs of a source.
pub fn source_urls(base: &str, id: &str) -> (r: (String, String))
    ensures
        r.0@ == tile_url_spec(base@, id@),
        r.1@ == tilejson_url_spec(base@, id@),
{
    proof {
        reveal_strlit("/");
        reveal_strlit("/{z}/{x}/{y}");
        reveal_strlit(".json");
    }
    let mut t = chars_of(base);
    push_str(&mut t, "/");
    push_str(&mut t, id);
    let mut j = t.clone();
    push_str(&mut t, "/{z}/{x}/{y}");
    push_str(&mut j, ".json");
    (string_of(&t), string_of(&j))
}

/// The base URL of the loopback tile server on `port`.
pub fn loopback_base(port: u16) -> (r: String)
    ensures
        r@ == "http://127.0.0.1:"@ + decimal(port as nat),
{
    let mut v = chars_of("http://127.0.0.1:");
    push_decimal(&mut v, port as u64);
    proof {
        reveal_strlit("http://127.0.0.1:");
    }
    string_of(&v)
}

} // verus!
