use map_tile_studio::errors::TilerError;
use map_tile_studio::gdalenv::{
    bin_dir_verdict, bundled_gdal_settings, bundled_settings_for, candidate_bin_dirs, command_failed, discover_with, find_bin_dir,
    data_candidates, first_existing, first_present, g2t_candidates, gdalinfo_probes,
    parse_progress_percent, probe_in_order, proj_candidates, python_candidates, GdalEnv, GdalSearch, OutputTail, TAIL_LINES,
};

fn search(windows: bool) -> GdalSearch {
    GdalSearch {
        windows,
        gdal_bin: None,
        gdal_prefix: None,
        path_dirs: vec![],
        path_var: String::new(),
        gdal_data: None,
        proj_lib: None,
        proj_data: None,
        python: None,
        pythonhome: None,
    }
}

#[test]
fn error_messages() {
    assert_eq!(TilerError::NoInputs.message(), "no input rasters were supplied");
    assert_eq!(
        TilerError::InputMissing("a.tif".to_string()).message(),
        "input raster does not exist: a.tif"
    );
    assert_eq!(
        TilerError::BadZoomRange { min: 12, max: 3 }.message(),
        "invalid zoom range: min_zoom (12) must be <= max_zoom (3)"
    );
    assert_eq!(
        TilerError::GdalToolMissing("gdalwarp".to_string(), "/opt/gdal/bin".to_string()).message(),
        "required GDAL tool `gdalwarp` was not found in the GDAL installation at /opt/gdal/bin"
    );
    assert_eq!(
        TilerError::InspectParse { path: "x.tif".to_string(), reason: "bad json".to_string() }
            .message(),
        "could not parse gdalinfo output for x.tif: bad json"
    );
    assert_eq!(
        TilerError::CommandFailed {
            cmd: "gdalwarp a b".to_string(),
            status: "exit status: 1".to_string(),
            stderr: "oops".to_string()
        }
        .message(),
        "command `gdalwarp a b` failed with status exit status: 1:\noops"
    );
    assert!(TilerError::GdalNotFound("/usr/bin".to_string())
        .message()
        .ends_with("Tried: /usr/bin"));
    assert_eq!(TilerError::Other("boom".to_string()).message(), "boom");
}

#[test]
fn tool_path_and_gdal2tiles_invocation() {
    let mut env = GdalEnv {
        bin_dir: "/opt/gdal/bin".to_string(),
        gdal2tiles: "gdal2tiles.py".to_string(),
        python: None,
        env: vec![],
        exe_suffix: String::new(),
    };
    assert_eq!(env.tool("gdalwarp"), "/opt/gdal/bin/gdalwarp");
    let (cmd, args) = env.gdal2tiles_invocation();
    assert_eq!(cmd, "gdal2tiles.py");
    assert!(args.is_empty());
    env.python = Some("/usr/bin/python3".to_string());
    let (cmd, args) = env.gdal2tiles_invocation();
    assert_eq!(cmd, "/usr/bin/python3");
    assert_eq!(args, vec!["-m".to_string(), "osgeo_utils.gdal2tiles".to_string()]);
}

#[test]
fn candidates_in_priority_order() {
    let mut s = search(false);
    s.gdal_bin = Some("/custom/bin".to_string());
    s.gdal_prefix = Some("/prefix".to_string());
    s.path_dirs = vec!["/p1".to_string(), "/p2".to_string()];
    let c = candidate_bin_dirs(&s);
    assert_eq!(
        c,
        vec![
            "/custom/bin",
            "/prefix/bin",
            "/p1",
            "/p2",
            "/usr/bin",
            "/usr/local/bin",
            "/opt/homebrew/bin",
            "/opt/local/bin"
        ]
    );
    assert_eq!(candidate_bin_dirs(&search(true)).len(), 4);
}

#[test]
fn missing_gdal_lists_every_candidate() {
    let cands = vec!["/no/such/a".to_string(), "/no/such/b".to_string()];
    match find_bin_dir(&cands, "") {
        Err(TilerError::GdalNotFound(t)) => assert_eq!(t, "/no/such/a, /no/such/b"),
        _ => panic!("no candidate holds gdalinfo"),
    }
    assert_eq!(first_existing(&cands), None);
    let some = vec!["/no/such/a".to_string(), "/bin/sh".to_string()];
    assert_eq!(first_existing(&some), Some("/bin/sh".to_string()));
}

#[test]
fn discovered_env_ends_with_fixed_entries() {
    let mut s = search(false);
    s.path_var = "/usr/bin:/bin".to_string();
    let env = discover_with(&s, "/no/such/gdal/bin".to_string(), &vec![]);
    assert_eq!(env.bin_dir, "/no/such/gdal/bin");
    assert_eq!(env.exe_suffix, "");
    assert_eq!(env.python, None);
    let n = env.env.len();
    assert!(n >= 3);
    assert_eq!(env.env[n - 3], ("USE_PATH_FOR_GDAL_PYTHON".to_string(), "YES".to_string()));
    assert_eq!(env.env[n - 2], ("PROJ_NETWORK".to_string(), "OFF".to_string()));
    assert_eq!(
        env.env[n - 1],
        ("PATH".to_string(), "/no/such/gdal/bin:/usr/bin:/bin".to_string())
    );
    let win = discover_with(&search(true), "/no/such/gdal/bin".to_string(), &vec![]);
    assert_eq!(win.exe_suffix, ".exe");
}

#[test]
fn progress_percent_is_last_small_number() {
    assert_eq!(parse_progress_percent("0...10...20...30"), Some(30));
    assert_eq!(parse_progress_percent("0...10...20..."), Some(20));
    assert_eq!(parse_progress_percent("100 - done."), Some(100));
    assert_eq!(parse_progress_percent("Generating 2048 tiles 40"), Some(40));
    assert_eq!(parse_progress_percent("tile 512"), None);
    assert_eq!(parse_progress_percent("no digits"), None);
    assert_eq!(parse_progress_percent(""), None);
}

#[test]
fn output_tail_keeps_last_lines() {
    let mut t = OutputTail::new();
    for i in 0..(TAIL_LINES + 5) {
        t.push(format!("line {i}"));
    }
    assert_eq!(t.lines.len(), TAIL_LINES);
    assert_eq!(t.lines[0], "line 5");
    assert_eq!(t.lines[TAIL_LINES - 1], format!("line {}", TAIL_LINES + 4));
}

#[test]
fn failed_command_report() {
    let e = command_failed(
        "gdalwarp",
        &vec!["-of".to_string(), "GTiff".to_string()],
        "exit status: 2".to_string(),
        "ERROR 1".to_string(),
    );
    match e {
        TilerError::CommandFailed { cmd, status, stderr } => {
            assert_eq!(cmd, "gdalwarp -of GTiff");
            assert_eq!(status, "exit status: 2");
            assert_eq!(stderr, "ERROR 1");
        }
        _ => panic!("expected CommandFailed"),
    }
}

#[test]
fn no_bundle_no_settings() {
    assert!(bundled_gdal_settings("/no/such/app/dir", false).is_empty());
    assert!(bundled_gdal_settings("/no/such/app/dir", true).is_empty());
}

#[test]
fn discovered_entries_come_from_configuration() {
    let mut s = search(false);
    s.gdal_data = Some("/".to_string());
    s.python = Some("/bin/sh".to_string());
    let env = discover_with(&s, "/no/such/gdal/bin".to_string(), &vec![]);
    assert_eq!(env.env[0], ("GDAL_DATA".to_string(), "/".to_string()));
    assert_eq!(env.python.as_deref(), Some("/bin/sh"));
    assert!(env.env.iter().any(|(k, v)| k == "PYTHONHOME" && v == "/bin"));
    assert_eq!(env.gdal2tiles, "gdal2tiles");
}

#[test]
fn first_present_picks_first_found() {
    let cands = vec!["a".to_string(), "b".to_string(), "c".to_string()];
    assert_eq!(first_present(&cands, &vec![false, true]), Some("b".to_string()));
    assert_eq!(first_present(&cands, &vec![true, true, true]), Some("a".to_string()));
    assert_eq!(first_present(&cands, &vec![false, false, false]), None);
    assert_eq!(first_present(&cands, &vec![]), None);
}

#[test]
fn bundle_settings_follow_what_was_found() {
    assert!(bundled_settings_for("/app", false, false, true).is_empty());
    let two = bundled_settings_for("/app", false, true, false);
    assert_eq!(
        two,
        vec![
            ("MARTIN_GDAL_BIN".to_string(), "/app/gdal/bin".to_string()),
            ("MARTIN_GDAL_PREFIX".to_string(), "/app/gdal".to_string()),
        ]
    );
    let three = bundled_settings_for("/app", false, true, true);
    assert_eq!(three.len(), 3);
    assert_eq!(three[2], ("MARTIN_GDAL_PYTHON".to_string(), "/app/python/python".to_string()));
}

#[test]
fn bin_dir_follows_the_answers() {
    let cands = vec!["/a".to_string(), "/b".to_string(), "/c".to_string()];
    assert_eq!(bin_dir_verdict(&cands, &vec![false, true]).ok(), Some("/b".to_string()));
    match bin_dir_verdict(&cands, &vec![false, false, false]) {
        Err(TilerError::GdalNotFound(t)) => assert_eq!(t, "/a, /b, /c"),
        _ => panic!("no candidate holds gdalinfo"),
    }
}

#[test]
fn search_candidates_come_in_order() {
    let mut s = search(false);
    s.gdal_data = Some("/etc/gdal".to_string());
    assert_eq!(
        data_candidates(&s, "/opt/g", "/opt/g/bin"),
        vec![
            "/etc/gdal".to_string(),
            "/opt/g/apps/gdal/share/gdal".to_string(),
            "/opt/g/share/gdal".to_string(),
            "/opt/g/share/gdal".to_string(),
            "/opt/g/bin/../share/gdal".to_string(),
        ]
    );
    s.proj_data = Some("/pd".to_string());
    let (c, q) = proj_candidates(&s, "/opt/g", "/opt/g/bin");
    assert_eq!(c, vec!["/pd", "/opt/g/share/proj", "/opt/g/apps/proj/share/proj", "/opt/g/bin/../share/proj"]);
    assert_eq!(q, vec!["/pd/proj.db", "/opt/g/share/proj", "/opt/g/apps/proj/share/proj", "/opt/g/bin/../share/proj"]);
    s.python = Some("/py/bin/python3".to_string());
    s.pythonhome = Some("/ph".to_string());
    let (h, e) = python_candidates(&s, "/opt/g", &vec!["/opt/g/apps/Python312".to_string()]);
    assert_eq!(h, vec!["/py/bin", "/opt/python", "/ph"]);
    assert_eq!(e, vec!["/py/bin/python3", "/opt/python/python", "/ph/python"]);
    assert_eq!(
        g2t_candidates(false, &vec![], "/opt/g/bin"),
        vec!["/opt/g/bin/gdal2tiles", "/opt/g/bin/gdal2tiles.py", "/opt/g/bin/gdal2tiles"]
    );
    assert_eq!(gdalinfo_probes(&vec!["/a".to_string(), "/b".to_string()], ""), vec!["/a/gdalinfo", "/b/gdalinfo"]);
    assert_eq!(probe_in_order(&vec!["/no/such/x".to_string(), "/bin/sh".to_string(), "/bin".to_string()]), vec![false, true]);
    assert_eq!(probe_in_order(&vec!["/no/such/x".to_string()]), vec![false]);
}
