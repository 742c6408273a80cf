//! The decisions of a vector import into PostGIS through `ogr2ogr`: the target table and
//! connection, the source CRS (an explicit one, the file's own, or one shared by the
//! sibling `.prj` files, with the Bangladesh datum fix), and the `ogr2ogr` command line.

use vstd::prelude::*;
use crate::crs::{with_bd_datum_shift, with_bd_datum_shift_spec};
use crate::paths::{normal_name, path_is_file, plain_name, split_stem_ext, stem_ext};
use crate::pgcmd::{find_conn, first_conn_with_id, lemma_first_conn_with_id, slugify, table_slug};
use crate::pgconfig::{
    conn_views, first_bundled, libpq_quote, push_libpq_quoted, ConnFields, PgConfig, PgConnection,
};
use crate::text::{
    opt_view, push_arg, string_views,
    chars_of, contains_seq, contains_vec, decimal, lower, push_decimal, push_range, push_str,
    slice_of, string_of, string_of_range, trim_ws, trim_ws_bounds, trim_ws_vec,
};
use crate::tokens::{next_sep, split_char};

verus! {

/// What the import dialog sends.
pub struct ImportParams {
    /// Source file (.shp, .geojson, .json, .gpkg, ...).
    pub path: String,
    /// Target connection id (defaults to the bundled cluster).
    pub conn_id: Option<String>,
    /// Target table name (defaults to a slug of the file name).
    pub table: Option<String>,
    /// Override of the source CRS when the file lacks projection info (e.g. `EPSG:3857`).
    pub src_srs: Option<String>,
}

/// What a finished import reports.
pub struct ImportReport {
    pub table: String,
    pub source_id: Option<String>,
    pub message: String,
}

// ---------------------------------------------------------------------------
// table and connection
// ---------------------------------------------------------------------------

/// The target table: the slug of the requested name when it is not blank, else the slug
/// of the file's stem (`layer` when the file has none).
pub open spec fn import_table_spec(table: Option<Seq<char>>, stem: Option<Seq<char>>) -> Seq<char> {
    match table {
        Some(t) if trim_ws(t).len() > 0 => table_slug(t),
        _ => match stem {
            Some(s) => table_slug(s),
            None => table_slug("layer"@),
        },
    }
}

/// The table an import writes to, from the requested name and the file's stem.
pub fn import_table_name(table: &Option<String>, stem: &Option<String>) -> (r: String)
    ensures
        r@ == import_table_spec(
            opt_view(*table),
            opt_view(*stem),
        ),
{
    if let Some(t) = table {
        let tv = chars_of(t.as_str());
        let tt = trim_ws_vec(&tv);
        if tt.len() > 0 {
            return slugify(t.as_str());
        }
    }
    match stem {
        Some(s) => slugify(s.as_str()),
        None => {
            proof {
                reveal_strlit("layer");
            }
            slugify("layer")
        },
    }
}

/// A leading part of a path that holds no platform prefix and no root: non-empty, not
/// starting with a separator, with no drive colon.
pub open spec fn unprefixed(d: Seq<char>) -> bool {
    d.len() > 0 && d[0] != '/' && d[0] != '\\' && forall|i: int| 0 <= i < d.len() ==> #[trigger] d[i]
        != ':'
}

/// `r` is the part after the last `/` of `p` wherever `p` is a relative path without a
/// drive that ends in `/` and a normal name.
pub open spec fn names_after_slash(p: Seq<char>, r: Option<Seq<char>>) -> bool {
    forall|k: int|
        0 < k < p.len() && #[trigger] p[k] == '/' && normal_name(p.skip(k + 1)) && unprefixed(
            p.take(k),
        ) ==> r == Some(p.skip(k + 1))
}

/// `Path::new(p).file_name()`: the last component of `p`, when it is a name (not `..`);
/// never empty. A plain name is its own last component, and so is the part after the last
/// `/` of a relative path without a drive, when that part is a normal name. What it is for
/// other paths depends on the platform's separators and prefixes and is left unsaid.
#[verifier::external_body]
fn path_file_name(p: &str) -> (r: Option<String>)
    ensures
        r matches Some(n) ==> n@.len() > 0,
        normal_name(p@) ==> opt_view(r) == Some(p@),
        names_after_slash(p@, opt_view(r)),
{
    std::path::Path::new(p).file_name().map(|n| n.to_string_lossy().into_owned())
}

/// The stem of the file an import reads (`Path::file_stem`): the stem of its last
/// component.
pub fn import_file_stem(path: &str) -> (r: Option<String>)
    ensures
        r matches Some(s) ==> exists|n: Seq<char>| n.len() > 0 && s@ == stem_ext(n).0,
        normal_name(path@) ==> (r matches Some(s) && s@ == stem_ext(path@).0),
        forall|k: int|
            0 < k < path@.len() && #[trigger] path@[k] == '/' && normal_name(path@.skip(k + 1))
                && unprefixed(path@.take(k)) ==> (r matches Some(s) && s@ == stem_ext(
                path@.skip(k + 1),
            ).0),
{
    match path_file_name(path) {
        Some(n) => {
            let (stem, _ext) = split_stem_ext(n.as_str());
            Some(stem)
        },
        None => None,
    }
}

/// The error of an import whose source file is missing.
pub open spec fn file_not_found(path: Seq<char>) -> Seq<char> {
    "File not found: "@ + path
}

/// The connection an import targets: the one with the requested id, else the bundled one.
pub open spec fn import_conn_index(cs: Seq<ConnFields>, conn_id: Option<Seq<char>>) -> Option<int> {
    match conn_id {
        Some(id) => match first_conn_with_id(cs, id) {
            Some(i) => Some(i),
            None => first_bundled(cs),
        },
        None => first_bundled(cs),
    }
}

/// The refusal when no connection can take an import.
pub open spec fn no_target_error() -> Seq<char> {
    "No target PostGIS connection configured."@
}

/// The connection an import writes to: the one with the requested id when there is one,
/// else the bundled one; refused when there is neither.
pub fn import_target(cfg: &PgConfig, conn_id: &Option<String>) -> (r: Result<PgConnection, String>)
    ensures
        match import_conn_index(
            conn_views(cfg.connections@),
            match conn_id {
                Some(id) => Some(id@),
                None => None,
            },
        ) {
            Some(i) => r matches Ok(c) && c@ == conn_views(cfg.connections@)[i],
            None => r matches Err(e) && e@ == no_target_error(),
        },
{
    let found = match conn_id {
        Some(id) => find_conn(&cfg.connections, id.as_str()),
        None => None,
    };
    match found {
        Some(i) => Ok(cfg.connections[i].copy()),
        None => match cfg.bundled() {
            Some(b) => Ok(b.copy()),
            None => {
                proof {
                    reveal_strlit("No target PostGIS connection configured.");
                }
                Err("No target PostGIS connection configured.".to_string())
            },
        },
    }
}

/// The stem an import names its table after, when `path` is a plain name or a relative
/// path ending in a normal name (`stem` is what `Path::file_stem` gave).
pub open spec fn stem_known(path: Seq<char>, stem: Option<Seq<char>>) -> bool {
    &&& normal_name(path) ==> stem == Some(stem_ext(path).0)
    &&& forall|k: int|
        0 < k < path.len() && #[trigger] path[k] == '/' && normal_name(path.skip(k + 1))
            && unprefixed(path.take(k)) ==> stem == Some(stem_ext(path.skip(k + 1)).0)
}

/// The verdict on an import's source file, given whether it is a regular file now and the
/// stem of its name: refused with `File not found: <path>` unless it is a file, else the stem.
pub fn import_source_verdict(path: &str, is_file: bool, stem: Option<String>) -> (r: Result<Option<String>, String>)
    ensures
        !is_file ==> (r matches Err(e) && e@ == file_not_found(path@)),
        is_file ==> r == Ok::<Option<String>, String>(stem),
{
    if !is_file {
        let mut v = chars_of("File not found: ");
        push_str(&mut v, path);
        proof {
            reveal_strlit("File not found: ");
        }
        return Err(string_of(&v));
    }
    Ok(stem)
}

/// Check an import's source file: whether it is a regular file now is asked of the file
/// system, and `import_source_verdict` decides; a file's stem is that of its last component.
pub fn import_source(path: &str) -> (r: Result<Option<String>, String>)
    ensures
        r matches Err(e) ==> e@ == file_not_found(path@),
        r matches Ok(stem) ==> stem_known(path@, opt_view(stem)),
{
    let is_file = path_is_file(path);
    let stem = if is_file {
        import_file_stem(path)
    } else {
        None
    };
    import_source_verdict(path, is_file, stem)
}

/// The table and the connection of an import whose source file has the stem `stem`: the
/// table is named as `import_table_spec` says, and the connection is the one with the
/// requested id, else the bundled one; refused when there is neither.
pub fn import_plan_for(params: &ImportParams, cfg: &PgConfig, stem: Option<String>) -> (r: Result<(String, PgConnection), String>)
    ensures
        match import_conn_index(conn_views(cfg.connections@), opt_view(params.conn_id)) {
            Some(i) => r matches Ok((t, c)) && t@ == import_table_spec(
                opt_view(params.table),
                opt_view(stem),
            ) && c@ == conn_views(cfg.connections@)[i],
            None => r matches Err(e) && e@ == no_target_error(),
        },
{
    let table = import_table_name(&params.table, &stem);
    let conn = import_target(cfg, &params.conn_id)?;
    Ok((table, conn))
}

/// Check the source file and pick the table and the connection of an import: the file
/// must be a regular file now (the file system decides); then the table is named after
/// the file's stem and the connection picked as `import_plan_for` says.
pub fn import_plan(params: &ImportParams, cfg: &PgConfig) -> (r: Result<(String, PgConnection), String>)
    ensures
        match r {
            Err(e) => e@ == file_not_found(params.path@) || (e@ == no_target_error()
                && import_conn_index(conn_views(cfg.connections@), opt_view(params.conn_id))
                is None),
            Ok((t, c)) => {
                &&& exists|stem: Option<Seq<char>>|
                    stem_known(params.path@, stem) && t@ == import_table_spec(
                        opt_view(params.table),
                        stem,
                    )
                &&& import_conn_index(conn_views(cfg.connections@), opt_view(params.conn_id))
                    matches Some(i) && c@ == conn_views(cfg.connections@)[i]
            },
        },
{
    let stem = import_source(params.path.as_str())?;
    let ghost sv = opt_view(stem);
    let r = import_plan_for(params, cfg, stem);
    proof {
        if r is Ok {
            assert(stem_known(params.path@, sv));
        }
    }
    r
}

// ---------------------------------------------------------------------------
// source CRS
// ---------------------------------------------------------------------------

/// The first line of `gdalsrsinfo -o proj4` output that holds a PROJ.4 definition,
/// trimmed.
pub open spec fn first_trimmed_with(lines: Seq<Seq<char>>, pat: Seq<char>) -> Option<Seq<char>>
    decreases lines.len(),
{
    if lines.len() == 0 {
        None
    } else if contains_seq(trim_ws(lines[0]), pat) {
        Some(trim_ws(lines[0]))
    } else {
        first_trimmed_with(lines.skip(1), pat)
    }
}

/// The PROJ.4 definition in the output of `gdalsrsinfo -o proj4`: the first line (trimmed)
/// that contains `+proj=`.
pub open spec fn proj4_line(out: Seq<char>) -> Option<Seq<char>> {
    first_trimmed_with(split_char(out, '\n'), "+proj="@)
}

/// The PROJ.4 definition in the output of `gdalsrsinfo -o proj4`, if any.
pub fn first_proj4_line(out: &str) -> (r: Option<String>)
    ensures
        r is None <==> proj4_line(out@) is None,
        r matches Some(l) ==> proj4_line(out@) == Some(l@),
{
    let s = chars_of(out);
    let pat = chars_of("+proj=");
    proof {
        reveal_strlit("+proj=");
    }
    let mut from: usize = 0;
    assert(s@.skip(0) =~= s@);
    loop
        invariant
            from <= s@.len(),
            s@ == out@,
            pat@ == "+proj="@,
            proj4_line(out@) == first_trimmed_with(split_char(s@.skip(from as int), '\n'), pat@),
        decreases s@.len() - from,
    {
        let end = next_sep(&s, from, '\n');
        let (lo, hi) = trim_ws_bounds(&s, from, end);
        let line = slice_of(&s, lo, hi);
        let ghost pieces = split_char(s@.skip(from as int), '\n');
        assert(pieces[0] == s@.subrange(from as int, end as int));
        if contains_vec(&line, &pat) {
            return Some(string_of(&line));
        }
        if end == s.len() {
            assert(pieces.skip(1) =~= Seq::<Seq<char>>::empty());
            assert(first_trimmed_with(pieces.skip(1), pat@) is None);
            return None;
        }
        assert(pieces.skip(1) =~= split_char(s@.skip(end + 1), '\n'));
        from = end + 1;
    }
}

/// How the source CRS of an import is obtained.
pub enum SrsResolution {
    /// The file has a usable CRS already; `ogr2ogr` reads it (no `-s_srs`).
    UseFileCrs,
    /// Use this PROJ.4 as `-s_srs` (Everest fix, or a borrowed sibling CRS).
    Override(String),
    /// The file has no CRS and no sibling `.prj` to infer one from.
    NoCrs,
    /// The file has no CRS and the folder mixes projections.
    Ambiguous,
}

/// The distinct definitions among `defs`, in order of first appearance.
pub open spec fn distinct_defs(defs: Seq<Option<Seq<char>>>) -> Seq<Seq<char>>
    decreases defs.len(),
{
    if defs.len() == 0 {
        Seq::empty()
    } else {
        let acc = distinct_defs(defs.drop_last());
        match defs.last() {
            Some(p) => if acc.contains(p) {
                acc
            } else {
                acc.push(p)
            },
            None => acc,
        }
    }
}

/// The distinct sibling definitions, in order of first appearance.
pub fn distinct_siblings(defs: &Vec<Option<String>>) -> (r: Vec<String>)
    ensures
        string_views(r@) == distinct_defs(
            defs@.map_values(
                |d: Option<String>|
                    opt_view(d),
            ),
        ),
{
    let ghost dv = defs@.map_values(
        |d: Option<String>|
            opt_view(d),
    );
    let mut acc: Vec<String> = Vec::new();
    let mut i: usize = 0;
    while i < defs.len()
        invariant
            i <= defs@.len(),
            dv.len() == defs@.len(),
            forall|k: int|
                0 <= k < defs@.len() ==> #[trigger] dv[k] == match defs@[k] {
                    Some(s) => Some(s@),
                    None => None,
                },
            string_views(acc@) == distinct_defs(dv.take(i as int)),
        decreases defs.len() - i,
    {
        let ghost prev = dv.take(i as int);
        assert(dv.take(i + 1).drop_last() =~= prev);
        assert(dv.take(i + 1).last() == dv[i as int]);
        if let Some(p) = &defs[i] {
            let mut seen = false;
            let mut j: usize = 0;
            while j < acc.len()
                invariant
                    j <= acc@.len(),
                    seen <==> exists|k: int| 0 <= k < j && acc@[k]@ == p@,
                decreases acc.len() - j,
            {
                if acc[j] == *p {
                    seen = true;
                }
                j = j + 1;
            }
            let ghost av = string_views(acc@);
            assert(seen <==> av.contains(p@)) by {
                if seen {
                    let k = choose|k: int| 0 <= k < j && acc@[k]@ == p@;
                    assert(av[k] == p@);
                }
                if av.contains(p@) {
                    let k = choose|k: int| 0 <= k < av.len() && av[k] == p@;
                    assert(acc@[k]@ == p@);
                }
            }
            if !seen {
                acc.push(p.clone());
                assert(string_views(acc@) =~= av.push(p@));
            }
        }
        i = i + 1;
    }
    assert(dv.take(i as int) =~= dv);
    acc
}

/// How the source CRS is resolved, from the file's own definition and those of the
/// sibling `.prj` files: a file CRS is kept unless the Bangladesh fix changes it; with
/// none, the siblings must agree on exactly one definition.
pub fn resolve_srs(own: Option<String>, siblings: &Vec<Option<String>>) -> (r: SrsResolution)
    ensures
        match own {
            Some(p) => if with_bd_datum_shift_spec(p@) == p@ {
                r is UseFileCrs
            } else {
                r matches SrsResolution::Override(s) && s@ == with_bd_datum_shift_spec(p@)
            },
            None => {
                let d = distinct_defs(
                    siblings@.map_values(
                        |x: Option<String>|
                            opt_view(x),
                    ),
                );
                if d.len() == 0 {
                    r is NoCrs
                } else if d.len() == 1 {
                    r matches SrsResolution::Override(s) && s@ == with_bd_datum_shift_spec(d[0])
                } else {
                    r is Ambiguous
                }
            },
        },
{
    match own {
        Some(p) => {
            let fixed = with_bd_datum_shift(p.as_str());
            if fixed == p {
                SrsResolution::UseFileCrs
            } else {
                SrsResolution::Override(fixed)
            }
        },
        None => {
            let d = distinct_siblings(siblings);
            if d.len() == 0 {
                SrsResolution::NoCrs
            } else if d.len() == 1 {
                assert(string_views(d@)[0] == d@[0]@);
                SrsResolution::Override(with_bd_datum_shift(d[0].as_str()))
            } else {
                SrsResolution::Ambiguous
            }
        },
    }
}

/// A sibling file whose CRS may be borrowed: its extension is `prj`, in any case.
pub open spec fn is_prj_name(name: Seq<char>) -> bool {
    match stem_ext(name).1 {
        Some(e) => e.len() == 3 && lower(e[0]) == 'p' && lower(e[1]) == 'r' && lower(e[2]) == 'j',
        None => false,
    }
}

/// Whether a file name has the extension `prj` (ASCII case ignored).
pub fn has_prj_extension(name: &str) -> (r: bool)
    ensures
        r == is_prj_name(name@),
{
    let (_stem, ext) = split_stem_ext(name);
    match ext {
        Some(e) => {
            let v = chars_of(e.as_str());
            v.len() == 3 && crate::text::lower_exec(v[0]) == 'p' && crate::text::lower_exec(v[1])
                == 'r' && crate::text::lower_exec(v[2]) == 'j'
        },
        None => false,
    }
}

/// The refusal when neither the file nor its folder gives a CRS.
pub open spec fn no_crs_error() -> Seq<char> {
    "This file has no projection (.prj) and none could be inferred from the folder. Set a Source CRS (e.g. EPSG:3857) in the import dialog and try again."@
}

/// The refusal when the folder's shapefiles disagree on their CRS.
pub open spec fn ambiguous_crs_error() -> Seq<char> {
    "This shapefile has no .prj, and the folder mixes shapefiles in different projections — so the CRS can't be inferred. Set a Source CRS explicitly in the import dialog."@
}

/// The explicit source CRS of an import: the requested one, trimmed, unless blank.
pub open spec fn explicit_srs_spec(src_srs: Option<Seq<char>>) -> Option<Seq<char>> {
    match src_srs {
        Some(s) if trim_ws(s).len() > 0 => Some(trim_ws(s)),
        _ => None,
    }
}

/// The explicit source CRS of an import, if one was given.
pub fn explicit_srs(src_srs: &Option<String>) -> (r: Option<String>)
    ensures
        r is None <==> explicit_srs_spec(
            opt_view(*src_srs),
        ) is None,
        r matches Some(s) ==> explicit_srs_spec(
            opt_view(*src_srs),
        ) == Some(s@),
{
    match src_srs {
        Some(s) => {
            let v = chars_of(s.as_str());
            let t = trim_ws_vec(&v);
            if t.len() > 0 {
                Some(string_of(&t))
            } else {
                None
            }
        },
        None => None,
    }
}

/// The `-s_srs` an import passes to `ogr2ogr` once the CRS was resolved: none when the
/// file's own CRS is used, the override otherwise; refused without a CRS.
pub fn effective_srs(res: SrsResolution) -> (r: Result<Option<String>, String>)
    ensures
        match res {
            SrsResolution::UseFileCrs => r matches Ok(None),
            SrsResolution::Override(s) => r matches Ok(Some(x)) && x@ == s@,
            SrsResolution::NoCrs => r matches Err(e) && e@ == no_crs_error(),
            SrsResolution::Ambiguous => r matches Err(e) && e@ == ambiguous_crs_error(),
        },
{
    match res {
        SrsResolution::UseFileCrs => Ok(None),
        SrsResolution::Override(s) => Ok(Some(s)),
        SrsResolution::NoCrs => {
            proof {
                reveal_strlit(
                    "This file has no projection (.prj) and none could be inferred from the folder. Set a Source CRS (e.g. EPSG:3857) in the import dialog and try again.",
                );
            }
            Err(
                "This file has no projection (.prj) and none could be inferred from the folder. Set a Source CRS (e.g. EPSG:3857) in the import dialog and try again.".to_string(),
            )
        },
        SrsResolution::Ambiguous => {
            proof {
                reveal_strlit(
                    "This shapefile has no .prj, and the folder mixes shapefiles in different projections — so the CRS can't be inferred. Set a Source CRS explicitly in the import dialog.",
                );
            }
            Err(
                "This shapefile has no .prj, and the folder mixes shapefiles in different projections — so the CRS can't be inferred. Set a Source CRS explicitly in the import dialog.".to_string(),
            )
        },
    }
}

// ---------------------------------------------------------------------------
// the ogr2ogr command line
// ---------------------------------------------------------------------------

/// The `PG:` data source of `ogr2ogr`: each value quoted libpq-style, the port in
/// decimal.
pub open spec fn ogr_dsn_spec(c: ConnFields) -> Seq<char> {
    "PG:host="@ + libpq_quote(c.host) + " port="@ + decimal(c.port as nat) + " dbname="@
        + libpq_quote(c.dbname) + " user="@ + libpq_quote(c.user) + " password="@ + libpq_quote(
        c.password,
    )
}

/// The `PG:` data source `ogr2ogr` writes to.
pub fn ogr_dsn(c: &PgConnection) -> (r: String)
    ensures
        r@ == ogr_dsn_spec(c@),
{
    let mut v = chars_of("PG:host=");
    push_libpq_quoted(&mut v, c.host.as_str());
    push_str(&mut v, " port=");
    push_decimal(&mut v, c.port as u64);
    push_str(&mut v, " dbname=");
    push_libpq_quoted(&mut v, c.dbname.as_str());
    push_str(&mut v, " user=");
    push_libpq_quoted(&mut v, c.user.as_str());
    push_str(&mut v, " password=");
    push_libpq_quoted(&mut v, c.password.as_str());
    proof {
        reveal_strlit("PG:host=");
        reveal_strlit(" port=");
        reveal_strlit(" dbname=");
        reveal_strlit(" user=");
        reveal_strlit(" password=");
    }
    string_of(&v)
}

/// The arguments of the `ogr2ogr` run of an import: into `dsn`, from `path`, as `table`,
/// reprojected to EPSG:4326, with `-s_srs` when a source CRS is forced.
pub open spec fn ogr2ogr_args_spec(
    dsn: Seq<char>,
    path: Seq<char>,
    table: Seq<char>,
    s_srs: Option<Seq<char>>,
) -> Seq<Seq<char>> {
    let base = seq![
        "-f"@,
        "PostgreSQL"@,
        dsn,
        path,
        "-nln"@,
        table,
        "-t_srs"@,
        "EPSG:4326"@,
        "-nlt"@,
        "PROMOTE_TO_MULTI"@,
        "-lco"@,
        "GEOMETRY_NAME=geom"@,
        "-lco"@,
        "FID=id"@,
        "-lco"@,
        "SPATIAL_INDEX=GIST"@,
        "-lco"@,
        "PRECISION=NO"@,
        "--config"@,
        "PG_USE_COPY"@,
        "YES"@,
        "-overwrite"@,
    ];
    match s_srs {
        Some(s) => base + seq!["-s_srs"@, s],
        None => base,
    }
}

/// The `ogr2ogr` arguments of an import.
pub fn ogr2ogr_args(dsn: String, path: String, table: String, s_srs: Option<String>) -> (r: Vec<
    String,
>)
    ensures
        string_views(r@) == ogr2ogr_args_spec(
            dsn@,
            path@,
            table@,
            opt_view(s_srs),
        ),
{
    let ghost (d0, p0, t0) = (dsn@, path@, table@);
    let mut a: Vec<String> = Vec::new();
    push_arg(&mut a, "-f");
    push_arg(&mut a, "PostgreSQL");
    let ghost b = string_views(a@);
    a.push(dsn);
    assert(string_views(a@) =~= b.push(d0));
    let ghost b = string_views(a@);
    a.push(path);
    assert(string_views(a@) =~= b.push(p0));
    push_arg(&mut a, "-nln");
    let ghost b = string_views(a@);
    a.push(table);
    assert(string_views(a@) =~= b.push(t0));
    push_arg(&mut a, "-t_srs");
    push_arg(&mut a, "EPSG:4326");
    push_arg(&mut a, "-nlt");
    push_arg(&mut a, "PROMOTE_TO_MULTI");
    push_arg(&mut a, "-lco");
    push_arg(&mut a, "GEOMETRY_NAME=geom");
    push_arg(&mut a, "-lco");
    push_arg(&mut a, "FID=id");
    push_arg(&mut a, "-lco");
    push_arg(&mut a, "SPATIAL_INDEX=GIST");
    push_arg(&mut a, "-lco");
    push_arg(&mut a, "PRECISION=NO");
    push_arg(&mut a, "--config");
    push_arg(&mut a, "PG_USE_COPY");
    push_arg(&mut a, "YES");
    push_arg(&mut a, "-overwrite");
    let ghost base = string_views(a@);
    assert(base =~= ogr2ogr_args_spec(d0, p0, t0, None));
    if let Some(s) = s_srs {
        let ghost sv = s@;
        push_arg(&mut a, "-s_srs");
        let ghost b = string_views(a@);
        a.push(s);
        assert(string_views(a@) =~= b.push(sv));
        assert(string_views(a@) =~= base + seq!["-s_srs"@, sv]);
    }
    a
}

/// The error of a failed `ogr2ogr` run: its trimmed error and standard output.
pub open spec fn import_failed_spec(stderr: Seq<char>, stdout: Seq<char>) -> Seq<char> {
    "Import failed.\n"@ + trim_ws(stderr) + "\n"@ + trim_ws(stdout)
}

/// The error of a failed `ogr2ogr` run.
pub fn import_failed_message(stderr: &str, stdout: &str) -> (r: String)
    ensures
        r@ == import_failed_spec(stderr@, stdout@),
{
    let mut v = chars_of("Import failed.\n");
    let e = trim_ws_vec(&chars_of(stderr));
    let o = trim_ws_vec(&chars_of(stdout));
    crate::text::push_all(&mut v, &e);
    push_str(&mut v, "\n");
    crate::text::push_all(&mut v, &o);
    proof {
        reveal_strlit("Import failed.\n");
        reveal_strlit("\n");
    }
    string_of(&v)
}

/// The message of a finished import.
pub open spec fn import_message_spec(table: Seq<char>, label: Seq<char>) -> Seq<char> {
    "Imported “"@ + table + "” into "@ + label + "."@
}

/// The report of a finished import into the connection labelled `label`.
pub fn import_report(table: String, source_id: Option<String>, label: &str) -> (r: ImportReport)
    ensures
        r.table@ == table@,
        r.source_id == source_id,
        r.message@ == import_message_spec(table@, label@),
{
    let mut v = chars_of("Imported “");
    push_str(&mut v, table.as_str());
    push_str(&mut v, "” into ");
    push_str(&mut v, label);
    push_str(&mut v, ".");
    proof {
        reveal_strlit("Imported “");
        reveal_strlit("” into ");
        reveal_strlit(".");
    }
    ImportReport { table, source_id, message: string_of(&v) }
}

} // verus!
