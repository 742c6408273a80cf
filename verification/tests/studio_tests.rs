use map_tile_studio::catalog::{format_label, TileEncoding};
use map_tile_studio::paths::is_plain_name;
use map_tile_studio::catalog::{
    delete_verdict, import_dest, import_dest_choice, loopback_base, map_kind, mbtiles_entry, sidecar_path,
    source_urls, MapKind, MbtilesMeta,
};
use map_tile_studio::cli::{
    check_line, cli_grids, crs_line, size_line, stage_banner, validation_verdict,
};
use map_tile_studio::errors::TilerError;
use map_tile_studio::model::{CheckStatus, TileGrid, ValidationCheck};
use map_tile_studio::pipeline::{ProgressEvent, StageStep};
use map_tile_studio::studio::{
    apply_event, check_input, client_rel_path, dest_choice, finish_job, gdal_unavailable, input_verdict, is_tiff, job_id,
    max_upload_bytes, new_job, requested_grids, sanitize_upload_name, stage_line,
    strip_verbatim_prefix, studio_dirs, unique_dest, JobStatus, DEFAULT_MAX_UPLOAD, MAX_LOG_LINES,
};

fn step(stage: &str, index: u32, total: u32, grid: Option<TileGrid>) -> StageStep {
    StageStep { stage: stage.to_string(), index, total, grid }
}

#[test]
fn upload_names_are_flat_tiffs() {
    assert_eq!(sanitize_upload_name("C:\\photos\\Dhaka Ortho.TIF"), Ok("Dhaka_Ortho.TIF".to_string()));
    assert_eq!(sanitize_upload_name("../../etc/x.tiff"), Ok("x.tiff".to_string()));
    assert_eq!(sanitize_upload_name("  a b.tif  "), Ok("a_b.tif".to_string()));
    assert_eq!(sanitize_upload_name("notes.txt"), Err("only .tif/.tiff files are accepted".to_string()));
    assert_eq!(sanitize_upload_name("dir/"), Err("invalid filename".to_string()));
    assert_eq!(sanitize_upload_name(".."), Err("invalid filename".to_string()));
    assert_eq!(sanitize_upload_name("--.tif"), Ok("--.tif".to_string()));
}

#[test]
fn upload_destination_is_free() {
    assert_eq!(unique_dest("/no/such/dir", "a.tif"), "/no/such/dir/a.tif");
    // `/bin/sh` exists, so its numbered variant is taken.
    assert_eq!(unique_dest("/bin", "sh"), "/bin/sh-1");
    assert_eq!(max_upload_bytes(Some("1048576".to_string())), 1048576);
    assert_eq!(max_upload_bytes(Some("lots".to_string())), DEFAULT_MAX_UPLOAD);
    assert_eq!(max_upload_bytes(None), 2147483648);
}

#[test]
fn input_paths() {
    assert_eq!(strip_verbatim_prefix("\\\\?\\C:\\data\\a.tif".to_string(), true), "C:\\data\\a.tif");
    assert_eq!(strip_verbatim_prefix("\\\\?\\UNC\\srv\\share\\a.tif".to_string(), true), "\\\\srv\\share\\a.tif");
    assert_eq!(strip_verbatim_prefix("\\\\?\\C:\\a".to_string(), false), "\\\\?\\C:\\a");
    assert_eq!(
        check_input("x.tif", Err("No such file or directory".to_string()), "/data", false),
        Err("x.tif: No such file or directory".to_string())
    );
    assert_eq!(
        check_input("../etc/passwd", Ok("/etc/passwd".to_string()), "/data", false),
        Err("../etc/passwd: path escapes the data directory".to_string())
    );
    assert_eq!(
        check_input("sub", Ok("/no/such/data/sub".to_string()), "/no/such/data", false),
        Err("sub: not a file".to_string())
    );
    let c = || -> Result<String, String> { Ok("\\\\?\\C:\\data\\a.tif".to_string()) };
    assert_eq!(
        input_verdict("a.tif", c(), false, true, true),
        Err("a.tif: path escapes the data directory".to_string())
    );
    assert_eq!(input_verdict("a.tif", c(), true, false, true), Err("a.tif: not a file".to_string()));
    assert_eq!(input_verdict("a.tif", c(), true, true, true), Ok("C:\\data\\a.tif".to_string()));
    assert_eq!(
        input_verdict("b", Err("gone".to_string()), true, true, false),
        Err("b: gone".to_string())
    );
    assert!(is_tiff("a.TIFF") && is_tiff("b.tif") && !is_tiff("c.png") && !is_tiff("tif"));
    assert_eq!(client_rel_path("sub\\dir\\a.tif"), "sub/dir/a.tif");
    assert_eq!(studio_dirs(None, None), ("data".to_string(), "studio-maps".to_string()));
    assert_eq!(
        studio_dirs(Some("/d".to_string()), Some("/o".to_string())),
        ("/d".to_string(), "/o".to_string())
    );
    assert_eq!(gdal_unavailable(&None), "GDAL not available");
    assert_eq!(gdal_unavailable(&Some("broken".to_string())), "broken");
}

#[test]
fn jobs_and_grids() {
    assert_eq!(job_id(7), "job-0007");
    assert_eq!(job_id(12345), "job-12345");
    assert_ne!(job_id(1), job_id(10));
    assert_eq!(dest_choice("/d", "a.tif", &vec![false]), "/d/a.tif");
    assert_eq!(dest_choice("/d", "a.tif", &vec![true, true, false]), "/d/a-2.tif");
    assert_eq!(dest_choice("/d", "a.tif", &vec![true, true]), "/d/a.tif");
    assert_eq!(dest_choice("/d", "noext", &vec![true, false]), "/d/noext-1");
    assert_eq!(requested_grids(&vec![], &vec![], false), vec![TileGrid::WebMercator]);
    assert!(requested_grids(&vec![], &vec![], true).is_empty());
    assert_eq!(
        requested_grids(&vec![TileGrid::Geodetic], &vec![3106], false),
        vec![TileGrid::Geodetic, TileGrid::Custom(3106)]
    );
    assert_eq!(
        cli_grids(&vec![TileGrid::WebMercator], &vec![32646]),
        vec![TileGrid::WebMercator, TileGrid::Custom(32646)]
    );
}

#[test]
fn job_progress() {
    let mut j = new_job("job-0001".to_string(), "ortho".to_string());
    assert_eq!(j.status, JobStatus::Running);
    apply_event(&mut j, &ProgressEvent::Stage(step("tile", 3, 8, Some(TileGrid::WebMercator))));
    assert_eq!((j.stage_index, j.stage_total), (3, 8));
    assert_eq!(j.log, vec!["▶ stage 3/8: tile [webmercator]".to_string()]);
    apply_event(&mut j, &ProgressEvent::Percent { stage: "tile".to_string(), percent: 40 });
    assert_eq!(j.percent, Some(40));
    apply_event(&mut j, &ProgressEvent::Stage(step("pack", 4, 8, None)));
    assert_eq!(j.percent, None);
    assert_eq!(j.log[1], "▶ stage 4/8: pack");
    for k in 0..(MAX_LOG_LINES + 10) {
        apply_event(&mut j, &ProgressEvent::Log { message: format!("l{k}") });
    }
    assert_eq!(j.log.len(), MAX_LOG_LINES);
    assert_eq!(j.log[MAX_LOG_LINES - 1], format!("l{}", MAX_LOG_LINES + 9));
    finish_job(&mut j, Err("gdalwarp failed".to_string()));
    assert_eq!(j.status, JobStatus::Failed);
    assert_eq!(j.error.as_deref(), Some("gdalwarp failed"));
    assert_eq!(j.log.last().unwrap(), "error: gdalwarp failed");
    let mut k = new_job("job-0002".to_string(), "x".to_string());
    finish_job(&mut k, Ok(()));
    assert_eq!(k.status, JobStatus::Done);
    assert!(k.log.is_empty());
    assert_eq!(stage_line(&step("mosaic", 1, 4, None)), "▶ stage 1/4: mosaic");
}

#[test]
fn catalog_entries() {
    assert_eq!(map_kind("a.MBTiles"), Some(MapKind::Mbtiles));
    assert_eq!(map_kind("b.tiff"), Some(MapKind::Cog));
    assert_eq!(map_kind("c.png"), None);
    let meta = MbtilesMeta {
        name: Some(String::new()),
        format: None,
        crs: Some("EPSG:3857".to_string()),
        minzoom: Some("10".to_string()),
        maxzoom: Some("z18".to_string()),
        tile_count: Some(99),
    };
    let e = mbtiles_entry("ortho", &meta);
    assert_eq!(e.source_id, "ortho");
    assert_eq!(e.name, "ortho");
    assert_eq!(e.format, "png");
    assert_eq!(e.crs.as_deref(), Some("EPSG:3857"));
    assert_eq!((e.min_zoom, e.max_zoom), (Some(10), None));
    assert_eq!(e.tiles_total, Some(99));
}

#[test]
fn catalog_files() {
    assert_eq!(import_dest("/no/such/maps", "a.mbtiles"), Ok("/no/such/maps/a.mbtiles".to_string()));
    assert_eq!(import_dest("/bin", "sh.TIF"), Ok("/bin/sh.TIF".to_string()));
    assert_eq!(import_dest_choice("/m", "a.TIF", &vec![true, false]), Ok("/m/a-imported.tif".to_string()));
    assert_eq!(import_dest_choice("/m", "a.TIF", &vec![true, true, false]), Ok("/m/a-imported-2.tif".to_string()));
    assert_eq!(import_dest_choice("/m", "a.tif", &vec![true]), Ok("/m/a.tif".to_string()));
    assert_eq!(
        import_dest_choice("/m", "a.txt", &vec![]),
        Err("only .mbtiles / .tif / .tiff can be imported".to_string())
    );
    assert_eq!(
        import_dest("/no/such/maps", "notes.txt"),
        Err("only .mbtiles / .tif / .tiff can be imported".to_string())
    );
    assert_eq!(
        delete_verdict("x.mbtiles", Err("gone".to_string()), true),
        Err("x.mbtiles: gone".to_string())
    );
    assert_eq!(
        delete_verdict("/etc/passwd", Ok("/etc/passwd".to_string()), false),
        Err("refusing to delete outside the maps folder: /etc/passwd".to_string())
    );
    assert_eq!(
        delete_verdict("m.tif", Ok("/maps/m.tif".to_string()), true),
        Ok("/maps/m.tif".to_string())
    );
    assert_eq!(sidecar_path("/maps/m.tif"), "/maps/m.tif.aux.xml");
    assert_eq!(
        source_urls("http://127.0.0.1:3000", "ortho"),
        ("http://127.0.0.1:3000/ortho/{z}/{x}/{y}".to_string(), "http://127.0.0.1:3000/ortho.json".to_string())
    );
    assert_eq!(loopback_base(3000), "http://127.0.0.1:3000");
}

#[test]
fn cli_lines() {
    assert_eq!(stage_banner(&step("cog", 8, 8, None)), "──▶ stage 8/8: cog");
    assert_eq!(
        stage_banner(&step("reproject", 2, 8, Some(TileGrid::Custom(3106)))),
        "──▶ stage 2/8: reproject [epsg3106]"
    );
    let c = ValidationCheck {
        name: "has tiles".to_string(),
        status: CheckStatus::Pass,
        detail: "42 tiles stored".to_string(),
    };
    assert_eq!(check_line(&c), "  ✔ has tiles            42 tiles stored");
    let (line, r) = validation_verdict(true);
    assert_eq!(line, "\nResult: PASS");
    assert!(r.is_ok());
    let (line, r) = validation_verdict(false);
    assert_eq!(line, "\nResult: FAIL");
    assert!(matches!(r, Err(TilerError::Other(m)) if m == "validation failed"));
    assert_eq!(size_line(800, 600, 4, true), "    size       : 800 x 600 px, 4 band(s) +alpha");
    assert_eq!(size_line(1, 2, 3, false), "    size       : 1 x 2 px, 3 band(s)");
    assert_eq!(crs_line(&Some("WGS 84".to_string()), Some(4326)), "    CRS        : WGS 84 (EPSG:4326)");
    assert_eq!(crs_line(&None, None), "    CRS        : ?");
}

#[test]
fn catalog_format_labels() {
    assert_eq!(format_label(TileEncoding::Png), "png");
    assert_eq!(format_label(TileEncoding::Jpeg), "jpeg");
    assert_eq!(format_label(TileEncoding::Webp), "webp");
    assert_eq!(format_label(TileEncoding::Mvt), "cog");
    assert_eq!(format_label(TileEncoding::Avif), "cog");
}

#[test]
fn plain_names() {
    assert!(is_plain_name("a.tif"));
    assert!(!is_plain_name(""));
    assert!(!is_plain_name("a/b"));
    assert!(!is_plain_name("c:x"));
    assert!(!is_plain_name("a\\b"));
}

#[test]
fn upload_verdicts() {
    assert_eq!(
        map_tile_studio::studio::upload_verdict("a.tif", 10, 100),
        Ok("a.tif".to_string())
    );
    assert_eq!(
        map_tile_studio::studio::upload_verdict("a.png", 10, 100),
        Err((400, "only .tif/.tiff files are accepted".to_string()))
    );
    assert_eq!(
        map_tile_studio::studio::upload_verdict("a.tif", 0, 100),
        Err((400, "empty upload".to_string()))
    );
    assert_eq!(
        map_tile_studio::studio::upload_verdict("a.tif", 101, 100),
        Err((413, "file exceeds the upload size limit".to_string()))
    );
}
