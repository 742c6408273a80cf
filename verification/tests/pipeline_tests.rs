use map_tile_studio::errors::TilerError;
use map_tile_studio::gdalenv::GdalEnv;
use map_tile_studio::model::{Resampling, TileFormat, TileGrid, ZoomTally};
use map_tile_studio::pipeline::{
    check_inputs, cog_args, cog_source_id, count_tiles_from, dir_number, emit_line,
    empty_skipped, epsg_string, grid_file_name, grid_source_id, image_native_zoom,
    input_verdict, max_native_zoom, metadata_pairs, mosaic_args, proj4_from_srsinfo, sanitize,
    srsinfo_args, stage_plan, tally_tiles, tile_args, tile_command, tile_row, total_stages,
    warp_args, work_dir_name, zoom_range, tile_count, GridParamsText, ProgressEvent, ZoomLevelTiles,
};

fn strs(v: &[&str]) -> Vec<String> {
    v.iter().map(|s| s.to_string()).collect()
}

#[test]
fn names_are_sanitized() {
    assert_eq!(sanitize("Dhaka Ortho 2024!"), "Dhaka_Ortho_2024");
    assert_eq!(sanitize("__a-b__"), "a-b");
    assert_eq!(sanitize("***"), "tilemap");
    assert_eq!(work_dir_name("My Map"), ".tiler-work-My_Map");
    assert_eq!(grid_source_id("My Map", TileGrid::WebMercator), "My_Map-webmercator");
    assert_eq!(grid_source_id("m", TileGrid::Geodetic), "m-wgs84");
    assert_eq!(grid_source_id("m", TileGrid::Custom(3106)), "m-epsg3106");
    assert_eq!(cog_source_id("m"), "m-cog");
    assert_eq!(grid_file_name("warp_", TileGrid::WebMercator, ".vrt"), "warp_webmercator.vrt");
}

#[test]
fn inputs_are_checked_in_order() {
    assert!(matches!(input_verdict(&vec![], &vec![]), Err(TilerError::NoInputs)));
    let inputs = strs(&["a.tif", "b.tif", "c.tif"]);
    assert!(input_verdict(&inputs, &vec![true, true, true]).is_ok());
    match input_verdict(&inputs, &vec![true, false, false]) {
        Err(TilerError::InputMissing(p)) => assert_eq!(p, "b.tif"),
        _ => panic!("b.tif is the first missing input"),
    }
    assert!(matches!(check_inputs(&vec![]), Err(TilerError::NoInputs)));
    match check_inputs(&strs(&["/bin/sh", "/no/such/input.tif"])) {
        Err(TilerError::InputMissing(p)) => assert_eq!(p, "/no/such/input.tif"),
        _ => panic!("the second input does not exist"),
    }
    assert!(check_inputs(&strs(&["/bin/sh"])).is_ok());
}

#[test]
fn stages_are_numbered_with_total() {
    assert_eq!(total_stages(2, true), 8);
    assert_eq!(total_stages(1, false), 4);
    let plan = stage_plan(&vec![TileGrid::WebMercator, TileGrid::Geodetic], true);
    assert_eq!(plan.len(), 8);
    let names: Vec<&str> = plan.iter().map(|s| s.stage.as_str()).collect();
    assert_eq!(names, vec!["mosaic", "reproject", "tile", "pack", "reproject", "tile", "pack", "cog"]);
    for (k, s) in plan.iter().enumerate() {
        assert_eq!(s.index as usize, k + 1);
        assert_eq!(s.total, 8);
    }
    assert_eq!(plan[0].grid, None);
    assert_eq!(plan[1].grid, Some(TileGrid::WebMercator));
    assert_eq!(plan[4].grid, Some(TileGrid::Geodetic));
    assert_eq!(plan[7].grid, None);
}

#[test]
fn native_image_zoom() {
    assert_eq!(image_native_zoom(256, 100), 0);
    assert_eq!(image_native_zoom(257, 100), 1);
    assert_eq!(image_native_zoom(100, 1024), 2);
    assert_eq!(image_native_zoom(0, 0), 0);
    assert_eq!(image_native_zoom(u32::MAX, 1), 24);
}

#[test]
fn zoom_ranges() {
    assert_eq!(zoom_range(None, None, None, None).unwrap(), (10, 18));
    assert_eq!(zoom_range(None, Some(16), Some(12), Some(21)).unwrap(), (12, 16));
    assert_eq!(zoom_range(None, None, None, Some(21)).unwrap(), (13, 21));
    assert_eq!(zoom_range(None, Some(30), None, None).unwrap(), (16, 24));
    assert_eq!(zoom_range(Some(5), Some(20), Some(1), None).unwrap(), (0, 5));
    assert_eq!(zoom_range(Some(30), None, None, None).unwrap(), (16, 24));
    match zoom_range(None, Some(3), Some(12), None) {
        Err(TilerError::BadZoomRange { min, max }) => assert_eq!((min, max), (12, 3)),
        _ => panic!("min above max is refused"),
    }
    assert_eq!(max_native_zoom(&vec![Some(18), None, Some(21), Some(20)]), Some(21));
    assert_eq!(max_native_zoom(&vec![None, None]), None);
}

#[test]
fn tool_command_lines() {
    assert_eq!(
        mosaic_args("m.vrt", &strs(&["a.tif", "b.tif"])),
        strs(&["-overwrite", "-addalpha", "m.vrt", "a.tif", "b.tif"])
    );
    assert_eq!(epsg_string(3857), "EPSG:3857");
    assert_eq!(
        warp_args(TileGrid::Geodetic, Resampling::Cubic, "m.vrt", "w.vrt"),
        strs(&[
            "-overwrite", "-of", "VRT", "-t_srs", "EPSG:4326", "-r", "cubic", "-multi", "-wo",
            "NUM_THREADS=ALL_CPUS", "m.vrt", "w.vrt"
        ])
    );
    let t = tile_args(
        TileGrid::WebMercator,
        10,
        18,
        Resampling::Bilinear,
        TileFormat::Webp,
        4,
        "w.vrt",
        "tiles",
    );
    assert_eq!(
        t,
        strs(&[
            "--xyz", "--profile", "mercator", "-z", "10-18", "-r", "bilinear", "--tiledriver",
            "WEBP", "--processes", "4", "-w", "none", "--no-kml", "w.vrt", "tiles"
        ])
    );
    assert_eq!(srsinfo_args(3106), strs(&["-o", "proj4", "--single-line", "EPSG:3106"]));
}

#[test]
fn cog_arguments_per_format() {
    let png = cog_args(TileFormat::Png, Resampling::Average, "m.vrt", "o.tif");
    assert_eq!(png.len(), 12);
    assert_eq!(png[5], "COMPRESS=DEFLATE");
    assert_eq!(png[9], "OVERVIEW_RESAMPLING=AVERAGE");
    let webp = cog_args(TileFormat::Webp, Resampling::Near, "m.vrt", "o.tif");
    assert_eq!(webp.len(), 14);
    assert_eq!(webp[5], "COMPRESS=WEBP");
    assert_eq!(webp[9], "OVERVIEW_RESAMPLING=NEAREST");
    assert_eq!(&webp[10..], &["-co", "QUALITY=85", "m.vrt", "o.tif"]);
}

#[test]
fn gdal2tiles_command_prefix() {
    let mut g = GdalEnv {
        bin_dir: "/b".to_string(),
        gdal2tiles: "gdal2tiles.py".to_string(),
        python: None,
        env: vec![],
        exe_suffix: String::new(),
    };
    let (p, a) = tile_command(&g, strs(&["--xyz"]));
    assert_eq!(p, "gdal2tiles.py");
    assert_eq!(a, strs(&["--xyz"]));
    g.python = Some("py".to_string());
    let (p, a) = tile_command(&g, strs(&["--xyz"]));
    assert_eq!(p, "py");
    assert_eq!(a, strs(&["-m", "osgeo_utils.gdal2tiles", "--xyz"]));
}

#[test]
fn srsinfo_output_is_unquoted() {
    assert_eq!(
        proj4_from_srsinfo("  '+proj=tmerc +lon_0=90 +units=m'\n"),
        Some("+proj=tmerc +lon_0=90 +units=m".to_string())
    );
    assert_eq!(proj4_from_srsinfo("ERROR 1: unknown"), None);
}

#[test]
fn output_lines_become_events() {
    assert!(emit_line("tile", "   ").is_empty());
    let ev = emit_line("tile", " 0...10...20 ");
    assert_eq!(ev.len(), 2);
    match &ev[0] {
        ProgressEvent::Percent { stage, percent } => {
            assert_eq!(stage, "tile");
            assert_eq!(*percent, 20);
        }
        _ => panic!("percentage first"),
    }
    match &ev[1] {
        ProgressEvent::Log { message } => assert_eq!(message, "[tile] 0...10...20"),
        _ => panic!("then the log line"),
    }
    let ev = emit_line("mosaic", "Creating output file");
    assert_eq!(ev.len(), 1);
    match &ev[0] {
        ProgressEvent::Log { message } => assert_eq!(message, "[mosaic] Creating output file"),
        _ => panic!("a plain log line"),
    }
}

#[test]
fn tile_tallies() {
    assert_eq!(tally_tiles(&vec![]), (0, 0));
    assert_eq!(tally_tiles(&vec![(3, 5), (4, 5), (3, 7)]), (3, 6));
    let levels = vec![
        ZoomLevelTiles { zoom: 12, tiles: vec![(1, 1), (2, 2)] },
        ZoomLevelTiles { zoom: 10, tiles: vec![(0, 0)] },
        ZoomLevelTiles { zoom: 11, tiles: vec![] },
    ];
    let (tallies, dense) = count_tiles_from(&levels);
    assert_eq!(
        tallies,
        vec![ZoomTally { zoom: 10, tiles: 1 }, ZoomTally { zoom: 12, tiles: 2 }]
    );
    assert_eq!(dense, 5);
    assert_eq!(empty_skipped(5, 3), 2);
    assert_eq!(empty_skipped(3, 5), 0);
}

#[test]
fn tile_file_names() {
    assert_eq!(tile_row("123.png", "png"), Some(123));
    assert_eq!(tile_row("123.webp", "png"), None);
    assert_eq!(tile_row("x.png", "png"), None);
    assert_eq!(dir_number("17", 30), Some(17));
    assert_eq!(dir_number("31", 30), None);
    assert_eq!(dir_number("1a", 30), None);
}

#[test]
fn mbtiles_metadata() {
    let m = metadata_pairs(
        "ortho",
        TileFormat::Png,
        TileGrid::WebMercator,
        10,
        18,
        "90,23,91,24".to_string(),
        "90.5,23.5",
        None,
    );
    assert_eq!(m.len(), 10);
    assert_eq!(m[0], ("name".to_string(), "ortho".to_string()));
    assert_eq!(m[1], ("format".to_string(), "png".to_string()));
    assert_eq!(
        m[4],
        (
            "description".to_string(),
            "Generated by Martin Tile Map Studio in Web Mercator (EPSG:3857)".to_string()
        )
    );
    assert_eq!(m[8], ("center".to_string(), "90.5,23.5,10".to_string()));
    assert_eq!(m[9], ("crs".to_string(), "EPSG:3857".to_string()));
    let p = GridParamsText {
        tile_size: 256,
        tile_origin: "0,0".to_string(),
        resolutions: "1,0.5".to_string(),
        bounds_crs: "0,0,1,1".to_string(),
        proj4: Some("+proj=tmerc".to_string()),
    };
    let c = metadata_pairs(
        "o",
        TileFormat::Webp,
        TileGrid::Custom(3106),
        0,
        5,
        "b".to_string(),
        "c",
        Some(p),
    );
    assert_eq!(c.len(), 16);
    assert_eq!(c[10], ("scheme".to_string(), "xyz".to_string()));
    assert_eq!(c[11], ("tile_size".to_string(), "256".to_string()));
    assert_eq!(c[15], ("crs_proj4".to_string(), "+proj=tmerc".to_string()));
}

#[test]
fn tile_count_totals() {
    let levels = vec![
        ZoomLevelTiles { zoom: 12, tiles: vec![(1, 1), (2, 2)] },
        ZoomLevelTiles { zoom: 10, tiles: vec![(0, 0)] },
        ZoomLevelTiles { zoom: 11, tiles: vec![] },
    ];
    let c = tile_count(&levels).unwrap();
    assert_eq!(
        c.per_zoom,
        vec![ZoomTally { zoom: 10, tiles: 1 }, ZoomTally { zoom: 12, tiles: 2 }]
    );
    assert_eq!((c.tiles_total, c.dense_total, c.empty_skipped), (3, 5, 2));
    let wide = vec![ZoomLevelTiles { zoom: 31, tiles: vec![(0, 0), (u32::MAX, 0)] }];
    assert!(tile_count(&wide).is_none());
}
