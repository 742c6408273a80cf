use map_tile_studio::inspect::{
    epsg_from_captures, parse_crs_name, parse_epsg, raster_facts, BandFacts, GdalInfoFacts,
};
use map_tile_studio::model::CheckStatus;
use map_tile_studio::validation::{judge_archive, missing_archive, MbtilesProbe};

#[test]
fn parses_epsg_from_wkt() {
    let wkt = r#"PROJCRS["WGS 84 / TM 90 NE",BASEGEOGCRS["WGS 84",ID["EPSG",4326]],ID["EPSG",9680]]"#;
    // The outermost (last) authority code is the CRS itself, not the base datum.
    assert_eq!(parse_epsg(wkt), Some(9680));
}

#[test]
fn parses_crs_name() {
    let wkt = r#"PROJCRS["WGS 84 / TM 90 NE",BASEGEOGCRS["WGS 84"]]"#;
    assert_eq!(parse_crs_name(wkt).as_deref(), Some("WGS 84 / TM 90 NE"));
}

#[test]
fn epsg_and_name_edge_cases() {
    assert_eq!(parse_epsg(r#"GEOGCS["WGS 84",AUTHORITY["EPSG","4326"]]"#), Some(4326));
    assert_eq!(parse_epsg("LOCAL_CS[\"x\"]"), None);
    assert_eq!(parse_crs_name(r#"GEOGCS["WGS 84",DATUM["x"]]"#), Some("WGS 84".to_string()));
    assert_eq!(parse_crs_name("no crs"), None);
    // The last code that fits 32 bits wins.
    assert_eq!(
        epsg_from_captures(&vec!["4326".to_string(), "99999999999".to_string()]),
        Some(4326)
    );
    assert_eq!(epsg_from_captures(&vec![]), None);
}

fn band(interp: &str, overviews: usize, block: u64) -> BandFacts {
    BandFacts {
        color_interp: Some(interp.to_string()),
        overviews: Some(overviews),
        block_x: Some(block),
    }
}

#[test]
fn raster_facts_from_gdalinfo() {
    let f = GdalInfoFacts {
        size: Some(vec![Some(10000), Some(8000)]),
        driver: Some("GTiff".to_string()),
        bands: vec![band("Red", 3, 512), band("Green", 3, 512), band("alpha", 0, 512)],
        wkt: Some(
            r#"PROJCRS["WGS 84 / UTM zone 46N",BASEGEOGCRS["WGS 84",ID["EPSG",4326]],ID["EPSG",32646]]"#
                .to_string(),
        ),
    };
    let r = raster_facts(&f).unwrap();
    assert_eq!((r.width, r.height), (10000, 8000));
    assert_eq!(r.driver, "GTiff");
    assert_eq!(r.band_count, 3);
    assert!(r.has_alpha);
    assert!(r.has_overviews);
    assert!(r.is_tiled);
    assert_eq!(r.epsg, Some(32646));
    assert_eq!(r.crs_name.as_deref(), Some("WGS 84 / UTM zone 46N"));
    assert!(!r.is_geographic);
    assert!(r.notes.is_empty());
}

#[test]
fn striped_raster_without_crs_gets_notes() {
    let f = GdalInfoFacts {
        size: Some(vec![Some(300), None]),
        driver: None,
        bands: vec![BandFacts { color_interp: None, overviews: None, block_x: None }],
        wkt: None,
    };
    let r = raster_facts(&f).unwrap();
    assert_eq!((r.width, r.height), (300, 0));
    assert_eq!(r.driver, "unknown");
    assert!(!r.is_tiled && !r.has_overviews && !r.has_alpha && !r.is_geographic);
    assert_eq!(r.epsg, None);
    assert_eq!(r.notes.len(), 3);
    assert!(r.notes[0].starts_with("Striped GeoTIFF"));
    assert!(r.notes[1].starts_with("No internal overviews"));
    assert!(r.notes[2].starts_with("Could not determine an EPSG code"));
}

#[test]
fn raster_facts_need_size() {
    let f = GdalInfoFacts { size: Some(vec![Some(1)]), driver: None, bands: vec![], wkt: None };
    assert_eq!(raster_facts(&f).err(), Some("missing `size`".to_string()));
    let g = GdalInfoFacts { size: None, driver: None, bands: vec![], wkt: None };
    assert!(raster_facts(&g).is_err());
}

fn probe() -> MbtilesProbe {
    MbtilesProbe {
        integrity: Ok("ok".to_string()),
        tile_count: Some(42),
        zoom_levels: vec![Some(10), Some(11), Some(12)],
        zoom_counts: vec![Some((10, 2)), Some((11, 10)), Some((12, 30))],
        tiny_count: Some(0),
        metadata: vec![
            Ok(Some("png".to_string())),
            Ok(Some("10".to_string())),
            Ok(Some("12".to_string())),
            Ok(None),
        ],
    }
}

#[test]
fn healthy_archive_passes() {
    let s = judge_archive(&probe());
    assert!(s.ok);
    assert_eq!(s.tiles_total, 42);
    assert_eq!((s.min_zoom, s.max_zoom), (Some(10), Some(12)));
    let names: Vec<&str> = s.checks.iter().map(|c| c.name.as_str()).collect();
    assert_eq!(
        names,
        vec![
            "opens as MBTiles",
            "sqlite integrity",
            "has tiles",
            "zoom continuity",
            "sparse storage",
            "no blank tiles",
            "metadata `format`",
            "metadata `minzoom`",
            "metadata `maxzoom`",
            "metadata `bounds`"
        ]
    );
    assert_eq!(s.checks[2].detail, "42 tiles stored");
    assert_eq!(s.checks[3].detail, "contiguous z10..z12");
    assert_eq!(s.checks[4].detail, "only non-empty tiles are stored (z10:2, z11:10, z12:30)");
    assert_eq!(s.checks[9].status, CheckStatus::Warn);
    assert_eq!(s.checks[9].detail, "missing");
}

#[test]
fn failed_checks_fail_validation() {
    let mut p = probe();
    p.integrity = Ok("*** page 3 corrupt".to_string());
    let s = judge_archive(&p);
    assert!(!s.ok);
    assert_eq!(s.checks[1].status, CheckStatus::Fail);

    let mut q = probe();
    q.tile_count = Some(0);
    q.zoom_levels = vec![Some(3), Some(5)];
    q.tiny_count = Some(7);
    let s = judge_archive(&q);
    assert!(!s.ok);
    assert_eq!(s.checks[2].detail, "no tiles in the archive");
    assert_eq!(s.checks[3].status, CheckStatus::Warn);
    assert_eq!(s.checks[3].detail, "present zooms [3, 5] are not contiguous over z3..z5");
    assert_eq!(s.checks[5].detail, "7 very small tiles (<120 bytes) — may be near-empty");

    let m = missing_archive("/maps/x.mbtiles");
    assert!(!m.ok);
    assert_eq!(m.checks.len(), 1);
    assert_eq!(m.checks[0].detail, "/maps/x.mbtiles not found");
    assert_eq!(m.checks[0].status, CheckStatus::Fail);
}

#[test]
fn warnings_do_not_fail_validation() {
    let mut p = probe();
    p.integrity = Err("locked".to_string());
    p.metadata[0] = Err("no such table".to_string());
    let s = judge_archive(&p);
    assert!(s.ok);
    assert_eq!(s.checks[1].status, CheckStatus::Warn);
    assert_eq!(s.checks[6].detail, "no such table");
}
