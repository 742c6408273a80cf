//! The request logic of the offline XYZ tile server: which endpoint a request is for,
//! how a tile URL is parsed and confined to one source name of the maps folder, the
//! XYZ-to-TMS row flip of MBTiles, content types, the landing page, and the worker pool
//! size.

use vstd::prelude::*;
use crate::paths::{joined, path_join, plain_name};
use crate::text::{
    chars_of, concat2, contains_seq, contains_str, decimal, has_char, has_char_vec, lead_count,
    lemma_lead_count_unique, lower, lower_exec, lower_seq, parse_uint, parse_uint_range,
    push_decimal, push_str, slice_of, string_of, string_views, trim_start_by,
};
use crate::tokens::{next_sep, not_sep, split_char};

verus! {

// ---------------------------------------------------------------------------
// tile URLs
// ---------------------------------------------------------------------------

/// The path of a request URL: everything before the first `?`.
pub open spec fn url_path(url: Seq<char>) -> Seq<char> {
    split_char(url, '?')[0]
}

/// The predicate "is `/`".
pub open spec fn slash_pred() -> spec_fn(char) -> bool {
    |c: char| c == '/'
}

/// The non-empty pieces, in order.
pub open spec fn nonempty_pieces(pieces: Seq<Seq<char>>) -> Seq<Seq<char>>
    decreases pieces.len(),
{
    if pieces.len() == 0 {
        Seq::empty()
    } else if pieces[0].len() > 0 {
        seq![pieces[0]] + nonempty_pieces(pieces.skip(1))
    } else {
        nonempty_pieces(pieces.skip(1))
    }
}

/// The non-empty `/`-separated segments of a request path, leading slashes dropped.
pub open spec fn path_segments(url: Seq<char>) -> Seq<Seq<char>> {
    nonempty_pieces(split_char(trim_start_by(url_path(url), slash_pred()), '/'))
}

/// A source name a request may name: non-empty, without a path separator, a drive colon
/// or `..`, so it stays inside the maps folder.
pub open spec fn safe_source(s: Seq<char>) -> bool {
    &&& s.len() > 0
    &&& !has_char(s, '/')
    &&& !has_char(s, '\\')
    &&& !has_char(s, ':')
    &&& !contains_seq(s, ".."@)
}

/// A tile request `source, z, x, y` (the source already percent-decoded; the row may
/// carry an extension, which is dropped).
pub open spec fn tile_request_spec(source: Seq<char>, z: Seq<char>, x: Seq<char>, y: Seq<char>) -> Option<
    (Seq<char>, nat, nat, nat),
> {
    let row = split_char(y, '.')[0];
    if !safe_source(source) {
        None
    } else {
        match (
            parse_uint(z, u32::MAX as nat),
            parse_uint(x, u32::MAX as nat),
            parse_uint(row, u32::MAX as nat),
        ) {
            (Some(a), Some(b), Some(c)) => Some((source, a, b, c)),
            _ => None,
        }
    }
}

/// A safe source name with an extension of plain characters appended is a plain file
/// name.
proof fn lemma_safe_with_ext(s: Seq<char>, ext: Seq<char>)
    requires
        safe_source(s),
        forall|i: int| 0 <= i < ext.len() ==> #[trigger] ext[i] != '/' && ext[i] != '\\' && ext[i]
            != ':',
    ensures
        plain_name(s + ext),
{
    let n = s + ext;
    assert forall|i: int| 0 <= i < n.len() implies #[trigger] n[i] != '/' && n[i] != '\\' && n[i]
        != ':' by {
        if i < s.len() {
            assert(n[i] == s[i]);
            if n[i] == '/' || n[i] == '\\' || n[i] == ':' {
                assert(has_char(s, n[i]));
            }
        } else {
            assert(n[i] == ext[i - s.len()]);
        }
    }
}

/// The files that may back a source inside the maps folder, in the order they are
/// tried: `{source}.mbtiles`, then `{source}.tif`, then `{source}.tiff`.
pub fn backing_files(maps_dir: &str, source: &str) -> (r: Vec<String>)
    requires
        safe_source(source@),
    ensures
        r@.len() == 3,
        joined(r@[0]@, maps_dir@, source@ + ".mbtiles"@),
        joined(r@[1]@, maps_dir@, source@ + ".tif"@),
        joined(r@[2]@, maps_dir@, source@ + ".tiff"@),
{
    proof {
        reveal_strlit(".mbtiles");
        reveal_strlit(".tif");
        reveal_strlit(".tiff");
        lemma_safe_with_ext(source@, ".mbtiles"@);
        lemma_safe_with_ext(source@, ".tif"@);
        lemma_safe_with_ext(source@, ".tiff"@);
    }
    let a = concat2(source, ".mbtiles");
    let b = concat2(source, ".tif");
    let c = concat2(source, ".tiff");
    let mut out: Vec<String> = Vec::new();
    out.push(path_join(maps_dir, a.as_str()));
    out.push(path_join(maps_dir, b.as_str()));
    out.push(path_join(maps_dir, c.as_str()));
    out
}

/// Whether a character vector holds `c`.
fn holds(s: &Vec<char>, c: char) -> (r: bool)
    ensures
        r == has_char(s@, c),
{
    has_char_vec(s, c)
}

/// A source name that keeps a request inside the maps folder.
pub fn is_safe_source(s: &str) -> (r: bool)
    ensures
        r == safe_source(s@),
{
    let v = chars_of(s);
    proof {
        reveal_strlit("..");
    }
    v.len() > 0 && !holds(&v, '/') && !holds(&v, '\\') && !holds(&v, ':') && !contains_str(
        &v,
        "..",
    )
}

/// A tile request from its parts: the (decoded) source must be safe, and the zoom,
/// column and row (before any `.`) must be unsigned 32-bit numbers.
pub fn tile_request(source: &str, z: &str, x: &str, y: &str) -> (r: Option<(String, u32, u32, u32)>)
    ensures
        r is None <==> tile_request_spec(source@, z@, x@, y@) is None,
        r matches Some((s, a, b, c)) ==> tile_request_spec(source@, z@, x@, y@) == Some(
            (s@, a as nat, b as nat, c as nat),
        ),
{
    let yv = chars_of(y);
    let end = next_sep(&yv, 0, '.');
    assert(yv@.skip(0) =~= yv@);
    assert(split_char(y@, '.')[0] == yv@.subrange(0, end as int));
    if !is_safe_source(source) {
        return None;
    }
    let zv = chars_of(z);
    let xv = chars_of(x);
    assert(zv@.subrange(0, zv@.len() as int) =~= zv@);
    assert(xv@.subrange(0, xv@.len() as int) =~= xv@);
    let a = parse_uint_range(&zv, 0, zv.len(), 0xffff_ffff);
    let b = parse_uint_range(&xv, 0, xv.len(), 0xffff_ffff);
    let c = parse_uint_range(&yv, 0, end, 0xffff_ffff);
    match (a, b, c) {
        (Some(a), Some(b), Some(c)) => Some((source.to_string(), a as u32, b as u32, c as u32)),
        _ => None,
    }
}

/// The name of what `percent_encoding` makes of a string: percent-decoded, then read as
/// UTF-8 with invalid sequences replaced.
pub uninterp spec fn percent_decoded(s: Seq<char>) -> Seq<char>;

/// `percent_decode_str(s).decode_utf8_lossy()`: the decoded string, named
/// `percent_decoded`. The source shows that a string without `%` decodes to itself.
#[verifier::external_body]
fn percent_decode(s: &str) -> (r: String)
    ensures
        r@ == percent_decoded(s@),
        !has_char(s@, '%') ==> r@ == s@,
{
    percent_encoding::percent_decode_str(s).decode_utf8_lossy().into_owned()
}

/// The segments of a request path.
pub fn request_segments(url: &str) -> (r: Vec<String>)
    ensures
        string_views(r@) == path_segments(url@),
{
    let s = chars_of(url);
    assert(s@.skip(0) =~= s@);
    let qend = next_sep(&s, 0, '?');
    let mut lo: usize = 0;
    while lo < qend && s[lo] == '/'
        invariant
            lo <= qend <= s@.len(),
            forall|i: int| 0 <= i < lo ==> #[trigger] s@[i] == '/',
        decreases qend - lo,
    {
        lo = lo + 1;
    }
    let ghost path = s@.subrange(0, qend as int);
    proof {
        assert(url_path(url@) == path);
        assert forall|i: int| 0 <= i < lo implies #[trigger] slash_pred()(path[i]) by {
            assert(path[i] == s@[i]);
        }
        if lo < qend {
            assert(path[lo as int] == s@[lo as int]);
        }
        lemma_lead_count_unique(path, slash_pred(), lo as int);
    }
    let p = slice_of(&s, lo, qend);
    assert(p@ =~= trim_start_by(path, slash_pred()));
    let mut out: Vec<String> = Vec::new();
    let mut from: usize = 0;
    assert(p@.skip(0) =~= p@);
    loop
        invariant
            from <= p@.len(),
            p@ == trim_start_by(url_path(url@), slash_pred()),
            path_segments(url@) == string_views(out@) + nonempty_pieces(
                split_char(p@.skip(from as int), '/'),
            ),
        decreases p@.len() - from,
    {
        let end = next_sep(&p, from, '/');
        let ghost pieces = split_char(p@.skip(from as int), '/');
        let ghost before = string_views(out@);
        assert(pieces[0] == p@.subrange(from as int, end as int));
        if end > from {
            out.push(crate::text::string_of_range(&p, from, end));
            assert(string_views(out@) =~= before + seq![pieces[0]]);
        }
        if end == p.len() {
            assert(pieces.skip(1) =~= Seq::<Seq<char>>::empty());
            assert(nonempty_pieces(pieces.skip(1)) =~= Seq::<Seq<char>>::empty());
            assert(path_segments(url@) =~= string_views(out@));
            return out;
        }
        assert(pieces.skip(1) =~= split_char(p@.skip(end + 1), '/'));
        from = end + 1;
    }
}

/// The tile a request URL asks for: `/{source}/{z}/{x}/{y}[.ext][?query]` with exactly
/// four segments; the source is percent-decoded and must stay a single name of the maps
/// folder.
pub fn parse_tile_path(url: &str) -> (r: Option<(String, u32, u32, u32)>)
    ensures
        path_segments(url@).len() != 4 ==> r is None,
        path_segments(url@).len() == 4 ==> {
            let g = path_segments(url@);
            let q = tile_request_spec(percent_decoded(g[0]), g[1], g[2], g[3]);
            &&& (r is None <==> q is None)
            &&& r matches Some((s, a, b, c)) ==> q == Some((s@, a as nat, b as nat, c as nat))
        },
        path_segments(url@).len() == 4 && !has_char(path_segments(url@)[0], '%') ==> {
            let g = path_segments(url@);
            let q = tile_request_spec(g[0], g[1], g[2], g[3]);
            &&& (r is None <==> q is None)
            &&& r matches Some((s, a, b, c)) ==> q == Some((s@, a as nat, b as nat, c as nat))
        },
        r matches Some((s, _, _, _)) ==> safe_source(s@),
{
    let segs = request_segments(url);
    if segs.len() != 4 {
        return None;
    }
    assert(string_views(segs@)[0] == segs@[0]@);
    assert(string_views(segs@)[1] == segs@[1]@);
    assert(string_views(segs@)[2] == segs@[2]@);
    assert(string_views(segs@)[3] == segs@[3]@);
    let source = percent_decode(segs[0].as_str());
    tile_request(source.as_str(), segs[1].as_str(), segs[2].as_str(), segs[3].as_str())
}

// ---------------------------------------------------------------------------
// MBTiles rows
// ---------------------------------------------------------------------------

/// `2^z` for a zoom that fits a 32-bit shift.
pub open spec fn pow2(z: nat) -> nat
    decreases z,
{
    if z == 0 {
        1
    } else {
        2 * pow2((z - 1) as nat)
    }
}

/// The TMS row MBTiles stores for XYZ row `y` at zoom `z`: `2^z - 1 - y`, when `y` is a
/// row of that zoom.
pub open spec fn tms_row_spec(z: nat, y: nat) -> Option<nat> {
    if y + 1 <= pow2(z) {
        Some((pow2(z) - 1 - y) as nat)
    } else {
        None
    }
}

proof fn lemma_pow2_mono(a: nat, b: nat)
    requires
        a <= b,
    ensures
        1 <= pow2(a) <= pow2(b),
    decreases b,
{
    if b > a {
        lemma_pow2_mono(a, (b - 1) as nat);
    } else if a > 0 {
        lemma_pow2_mono((a - 1) as nat, (a - 1) as nat);
    }
}

proof fn lemma_pow2_bounds(z: nat)
    ensures
        pow2(z) >= 1,
        z < 32 ==> pow2(z) <= 0x8000_0000,
{
    reveal_with_fuel(pow2, 32);
    assert(pow2(31) == 0x8000_0000);
    if z < 32 {
        lemma_pow2_mono(z, 31);
    } else {
        lemma_pow2_mono(0, z);
    }
}

/// The TMS row of an XYZ tile (`None` when `y` is not a row of zoom `z`).
pub fn tms_row(z: u32, y: u32) -> (r: Option<u32>)
    requires
        z < 32,
    ensures
        r is None <==> tms_row_spec(z as nat, y as nat) is None,
        r matches Some(t) ==> tms_row_spec(z as nat, y as nat) == Some(t as nat),
{
    let mut n: u64 = 1;
    let mut k: u32 = 0;
    while k < z
        invariant
            k <= z < 32,
            n == pow2(k as nat),
        decreases z - k,
    {
        proof {
            lemma_pow2_bounds(k as nat);
        }
        n = n * 2;
        k = k + 1;
    }
    proof {
        lemma_pow2_bounds(z as nat);
    }
    let top = n - 1;
    if (y as u64) > top {
        None
    } else {
        Some((top - y as u64) as u32)
    }
}

/// Law: the XYZ-to-TMS flip undoes itself: flipping a flipped row gives the row back.
pub proof fn tms_flip_is_involution(z: nat, y: nat)
    requires
        tms_row_spec(z, y) is Some,
    ensures
        tms_row_spec(z, tms_row_spec(z, y)->0) == Some(y),
{
}

// ---------------------------------------------------------------------------
// responses
// ---------------------------------------------------------------------------

/// The content type of tile bytes, by their signature: PNG, WebP, JPEG, else binary.
pub open spec fn content_type_spec(b: Seq<u8>) -> Seq<char> {
    if b.len() >= 4 && b[0] == 0x89 && b[1] == 0x50 && b[2] == 0x4e && b[3] == 0x47 {
        "image/png"@
    } else if b.len() >= 12 && b[0] == 0x52 && b[1] == 0x49 && b[2] == 0x46 && b[3] == 0x46
        && b[8] == 0x57 && b[9] == 0x45 && b[10] == 0x42 && b[11] == 0x50 {
        "image/webp"@
    } else if b.len() >= 2 && b[0] == 0xff && b[1] == 0xd8 {
        "image/jpeg"@
    } else {
        "application/octet-stream"@
    }
}

/// The content type of tile bytes.
pub fn content_type_of(bytes: &Vec<u8>) -> (r: &'static str)
    ensures
        r@ == content_type_spec(bytes@),
{
    proof {
        reveal_strlit("image/png");
        reveal_strlit("image/webp");
        reveal_strlit("image/jpeg");
        reveal_strlit("application/octet-stream");
    }
    if bytes.len() >= 4 && bytes[0] == 0x89 && bytes[1] == 0x50 && bytes[2] == 0x4e && bytes[3]
        == 0x47 {
        "image/png"
    } else if bytes.len() >= 12 && bytes[0] == 0x52 && bytes[1] == 0x49 && bytes[2] == 0x46
        && bytes[3] == 0x46 && bytes[8] == 0x57 && bytes[9] == 0x45 && bytes[10] == 0x42
        && bytes[11] == 0x50 {
        "image/webp"
    } else if bytes.len() >= 2 && bytes[0] == 0xff && bytes[1] == 0xd8 {
        "image/jpeg"
    } else {
        "application/octet-stream"
    }
}

/// What a request is for.
pub enum Route {
    /// A CORS preflight (`OPTIONS`): answered 204 with the CORS headers.
    Preflight,
    /// `/health`: answered `ok`.
    Health,
    /// `/` or `/index.html`: the landing page.
    Landing,
    /// `/{source}.json`: the TileJSON of that source when it exists, else a tile lookup.
    TileJson(String),
    /// Anything else: a tile, or 204 when there is none.
    Tile,
}

/// The source a `/{source}.json` path names (leading slashes dropped), if it is one.
pub open spec fn json_source(path: Seq<char>) -> Option<Seq<char>> {
    let t = trim_start_by(path, slash_pred());
    if crate::text::ends_with(t, ".json"@) {
        Some(t.take(t.len() - 5))
    } else {
        None
    }
}

/// The request is for the health check.
pub open spec fn is_health(url: Seq<char>) -> bool {
    url_path(url) == "/health"@
}

/// The request is for the landing page.
pub open spec fn is_landing(url: Seq<char>) -> bool {
    url_path(url) == "/"@ || url_path(url) == "/index.html"@
}

/// The route of a request, from whether its method is `OPTIONS` and its URL.
pub fn route(is_options: bool, url: &str) -> (r: Route)
    ensures
        match r {
            Route::Preflight => is_options,
            Route::Health => !is_options && is_health(url@),
            Route::Landing => !is_options && !is_health(url@) && is_landing(url@),
            Route::TileJson(s) => !is_options && !is_health(url@) && !is_landing(url@)
                && json_source(url_path(url@)) == Some(s@) && safe_source(s@),
            Route::Tile => !is_options && !is_health(url@) && !is_landing(url@) && !(
            json_source(url_path(url@)) matches Some(s) && safe_source(s)),
        },
{
    if is_options {
        return Route::Preflight;
    }
    let s = chars_of(url);
    assert(s@.skip(0) =~= s@);
    let qend = next_sep(&s, 0, '?');
    let path = slice_of(&s, 0, qend);
    assert(url_path(url@) == path@);
    proof {
        reveal_strlit("/health");
        reveal_strlit("/");
        reveal_strlit("/index.html");
        reveal_strlit(".json");
    }
    if crate::decimal::eq_chars(&path, &chars_of("/health")) {
        return Route::Health;
    }
    if crate::decimal::eq_chars(&path, &chars_of("/")) || crate::decimal::eq_chars(
        &path,
        &chars_of("/index.html"),
    ) {
        return Route::Landing;
    }
    let n = path.len();
    let mut lo: usize = 0;
    while lo < n && path[lo] == '/'
        invariant
            lo <= n == path@.len(),
            forall|i: int| 0 <= i < lo ==> #[trigger] path@[i] == '/',
        decreases n - lo,
    {
        lo = lo + 1;
    }
    proof {
        assert forall|i: int| 0 <= i < lo implies #[trigger] slash_pred()(path@[i]) by {}
        lemma_lead_count_unique(path@, slash_pred(), lo as int);
    }
    let t = slice_of(&path, lo, n);
    assert(t@ =~= trim_start_by(path@, slash_pred()));
    if crate::text::ends_with_str(&t, ".json") {
        let src = crate::text::string_of_range(&t, 0, t.len() - 5);
        assert(t@.subrange(0, t@.len() - 5) =~= t@.take(t@.len() - 5));
        if is_safe_source(src.as_str()) {
            return Route::TileJson(src);
        }
    }
    Route::Tile
}

/// Whether two names are equal ignoring ASCII case.
pub open spec fn eq_ignore_case(a: Seq<char>, b: Seq<char>) -> bool {
    lower_seq(a) == lower_seq(b)
}

/// The `Host` header of a request (the first whose name is `host` in any case), else
/// `localhost`.
pub open spec fn host_spec(headers: Seq<(Seq<char>, Seq<char>)>) -> Seq<char>
    decreases headers.len(),
{
    if headers.len() == 0 {
        "localhost"@
    } else if eq_ignore_case(headers[0].0, "host"@) {
        headers[0].1
    } else {
        host_spec(headers.skip(1))
    }
}

/// The host a request was sent to, for the absolute URLs of the landing page and
/// TileJSON.
pub fn host_from_headers(headers: &Vec<(String, String)>) -> (r: String)
    ensures
        r@ == host_spec(crate::gdalenv::env_views(headers@)),
{
    let ghost hv = crate::gdalenv::env_views(headers@);
    let host = chars_of("host");
    proof {
        reveal_strlit("host");
        reveal_strlit("localhost");
    }
    let mut i: usize = 0;
    assert(hv.skip(0) =~= hv);
    while i < headers.len()
        invariant
            i <= headers@.len(),
            hv == crate::gdalenv::env_views(headers@),
            host@ == "host"@,
            host_spec(hv) == host_spec(hv.skip(i as int)),
        decreases headers.len() - i,
    {
        let name = crate::text::lower_vec(&chars_of(headers[i].0.as_str()));
        let lh = crate::text::lower_vec(&host);
        assert(hv.skip(i as int)[0] == hv[i as int]);
        if crate::decimal::eq_chars(&name, &lh) {
            return headers[i].1.clone();
        }
        assert(hv.skip(i as int).skip(1) =~= hv.skip(i + 1));
        i = i + 1;
    }
    "localhost".to_string()
}

// ---------------------------------------------------------------------------
// the landing page
// ---------------------------------------------------------------------------

/// The top of the landing page, up to the map count.
pub open spec fn landing_head() -> Seq<char> {
    "<!doctype html><meta charset=utf-8><meta name=viewport content=\"width=device-width,initial-scale=1\"><title>Map Tile Studio — Tile Service</title><style>body{font:14px/1.5 system-ui,Segoe UI,sans-serif;margin:40px auto;max-width:760px;color:#161b22;padding:0 16px}h1{font-size:19px}code{background:#f1f3f5;padding:2px 6px;border-radius:5px;font-size:12px}ul{padding:0}li{list-style:none;margin:14px 0;border:1px solid #edeef1;border-radius:10px;padding:12px 14px}a{color:#2463eb}.muted{color:#667085}.brand{color:#2463eb;font-weight:600}</style><h1>Map Tile Studio <span class=muted>· tile service</span></h1><p class=muted>"@
}

/// The landing-page entry of one source.
pub open spec fn landing_row(s: Seq<char>, base: Seq<char>) -> Seq<char> {
    "<li><b>"@ + s + "</b><br><code>"@ + base + "/"@ + s + "/{z}/{x}/{y}</code> &middot; <a href=\"/"@ + s + ".json\">TileJSON</a></li>"@
}

/// The landing-page entries of the sources, in order.
pub open spec fn landing_rows(sources: Seq<Seq<char>>, base: Seq<char>) -> Seq<char>
    decreases sources.len(),
{
    if sources.len() == 0 {
        Seq::empty()
    } else {
        landing_rows(sources.drop_last(), base) + landing_row(sources.last(), base)
    }
}

/// The landing page listing the servable sources with their tile and TileJSON URLs.
pub open spec fn landing_spec(sources: Seq<Seq<char>>, base: Seq<char>) -> Seq<char> {
    landing_head() + decimal(sources.len()) + " map(s). XYZ tiles at <code>"@ + base + "/&lbrace;source&rbrace;/&lbrace;z&rbrace;/&lbrace;x&rbrace;/&lbrace;y&rbrace;</code></p>"@ + (if sources.len() == 0 {
        "<p class=muted>No maps yet — generate one in Map Tile Studio.</p>"@
    } else {
        Seq::empty()
    }) + "<ul>"@ + landing_rows(sources, base) + "</ul><p class=muted>Served by <span class=brand>AiGeoLAB</span> · ai-geolab.org</p>"@
}

/// The landing page of the tile service.
pub fn landing_html(sources: &Vec<String>, base: &str) -> (r: String)
    ensures
        r@ == landing_spec(string_views(sources@), base@),
{
    let ghost sv = string_views(sources@);
    let mut rows: Vec<char> = Vec::new();
    let mut i: usize = 0;
    assert(sv.take(0) =~= Seq::<Seq<char>>::empty());
    while i < sources.len()
        invariant
            i <= sources@.len(),
            sv == string_views(sources@),
            rows@ == landing_rows(sv.take(i as int), base@),
        decreases sources.len() - i,
    {
        let s = sources[i].as_str();
        push_str(&mut rows, "<li><b>");
        push_str(&mut rows, s);
        push_str(&mut rows, "</b><br><code>");
        push_str(&mut rows, base);
        push_str(&mut rows, "/");
        push_str(&mut rows, s);
        push_str(&mut rows, "/{z}/{x}/{y}</code> &middot; <a href=\"/");
        push_str(&mut rows, s);
        push_str(&mut rows, ".json\">TileJSON</a></li>");
        proof {
            reveal_strlit("<li><b>");
            reveal_strlit("</b><br><code>");
            reveal_strlit("/");
            reveal_strlit("/{z}/{x}/{y}</code> &middot; <a href=\"/");
            reveal_strlit(".json\">TileJSON</a></li>");
            assert(sv.take(i + 1).drop_last() =~= sv.take(i as int));
            assert(sv.take(i + 1).last() == sources@[i as int]@);
        }
        i = i + 1;
    }
    assert(sv.take(i as int) =~= sv);
    let mut out = chars_of("<!doctype html><meta charset=utf-8><meta name=viewport content=\"width=device-width,initial-scale=1\"><title>Map Tile Studio — Tile Service</title><style>body{font:14px/1.5 system-ui,Segoe UI,sans-serif;margin:40px auto;max-width:760px;color:#161b22;padding:0 16px}h1{font-size:19px}code{background:#f1f3f5;padding:2px 6px;border-radius:5px;font-size:12px}ul{padding:0}li{list-style:none;margin:14px 0;border:1px solid #edeef1;border-radius:10px;padding:12px 14px}a{color:#2463eb}.muted{color:#667085}.brand{color:#2463eb;font-weight:600}</style><h1>Map Tile Studio <span class=muted>· tile service</span></h1><p class=muted>");
    push_decimal(&mut out, sources.len() as u64);
    push_str(&mut out, " map(s). XYZ tiles at <code>");
    push_str(&mut out, base);
    push_str(&mut out, "/&lbrace;source&rbrace;/&lbrace;z&rbrace;/&lbrace;x&rbrace;/&lbrace;y&rbrace;</code></p>");
    if sources.len() == 0 {
        push_str(&mut out, "<p class=muted>No maps yet — generate one in Map Tile Studio.</p>");
    }
    push_str(&mut out, "<ul>");
    crate::text::push_all(&mut out, &rows);
    push_str(&mut out, "</ul><p class=muted>Served by <span class=brand>AiGeoLAB</span> · ai-geolab.org</p>");
    proof {
        reveal_strlit("<!doctype html><meta charset=utf-8><meta name=viewport content=\"width=device-width,initial-scale=1\"><title>Map Tile Studio — Tile Service</title><style>body{font:14px/1.5 system-ui,Segoe UI,sans-serif;margin:40px auto;max-width:760px;color:#161b22;padding:0 16px}h1{font-size:19px}code{background:#f1f3f5;padding:2px 6px;border-radius:5px;font-size:12px}ul{padding:0}li{list-style:none;margin:14px 0;border:1px solid #edeef1;border-radius:10px;padding:12px 14px}a{color:#2463eb}.muted{color:#667085}.brand{color:#2463eb;font-weight:600}</style><h1>Map Tile Studio <span class=muted>· tile service</span></h1><p class=muted>");
        reveal_strlit(" map(s). XYZ tiles at <code>");
        reveal_strlit("/&lbrace;source&rbrace;/&lbrace;z&rbrace;/&lbrace;x&rbrace;/&lbrace;y&rbrace;</code></p>");
        reveal_strlit("<p class=muted>No maps yet — generate one in Map Tile Studio.</p>");
        reveal_strlit("<ul>");
        reveal_strlit("</ul><p class=muted>Served by <span class=brand>AiGeoLAB</span> · ai-geolab.org</p>");
    }
    string_of(&out)
}

// ---------------------------------------------------------------------------
// sources and workers
// ---------------------------------------------------------------------------

/// A zoom read from MBTiles metadata: its value when it parses as `u8`, else the default.
pub open spec fn zoom_or_spec(v: Option<Seq<char>>, default: u8) -> nat {
    match v {
        Some(s) => match parse_uint(s, 255) {
            Some(z) => z,
            None => default as nat,
        },
        None => default as nat,
    }
}

/// A zoom read from MBTiles metadata, with a default.
pub fn zoom_or(v: &Option<String>, default: u8) -> (r: u8)
    ensures
        r as nat == zoom_or_spec(crate::text::opt_view(*v), default),
{
    match v {
        Some(s) => {
            let c = chars_of(s.as_str());
            match crate::text::parse_uint_vec(&c, 255) {
                Some(z) => z as u8,
                None => default,
            }
        },
        None => default,
    }
}

/// The number of worker threads for a machine with `cpus` CPUs: at least 2, at most 16.
pub open spec fn workers_for(cpus: nat) -> nat {
    if cpus < 2 {
        2
    } else if cpus > 16 {
        16
    } else {
        cpus
    }
}

/// Worker threads for `cpus` CPUs.
pub fn clamp_workers(cpus: usize) -> (r: usize)
    ensures
        r == workers_for(cpus as nat),
{
    if cpus < 2 {
        2
    } else if cpus > 16 {
        16
    } else {
        cpus
    }
}

/// `num_cpus::get()`: the number of logical CPUs available to this process; its
/// documentation promises at least one.
#[verifier::external_body]
fn cpu_count() -> (r: usize)
    ensures
        r >= 1,
{
    num_cpus::get()
}

/// Number of worker threads to serve with (bounded so a small box isn't swamped).
pub fn worker_count() -> (r: usize)
    ensures
        2 <= r <= 16,
{
    clamp_workers(cpu_count())
}

/// The ports tried for the loopback preview server: `preferred` and the 29 after it,
/// stopping at 65535.
pub open spec fn port_candidates_spec(preferred: u16) -> Seq<u16> {
    let end: int = if preferred + 30 > 65535 {
        65535
    } else {
        preferred + 30
    };
    Seq::new((end - preferred) as nat, |i: int| (preferred + i) as u16)
}

/// The ports to try, in order.
pub fn port_candidates(preferred: u16) -> (r: Vec<u16>)
    ensures
        r@ == port_candidates_spec(preferred),
{
    let end: u16 = preferred.saturating_add(30);
    let mut out: Vec<u16> = Vec::new();
    let mut p = preferred;
    while p < end
        invariant
            preferred <= p <= end,
            end as int == if preferred + 30 > 65535 {
                65535
            } else {
                preferred + 30
            },
            out@ =~= Seq::new((p - preferred) as nat, |i: int| (preferred + i) as u16),
        decreases end - p,
    {
        out.push(p);
        p = p + 1;
    }
    out
}

} // verus!
