use map_tile_studio::crs::BD_TOWGS84;
use map_tile_studio::pgconfig::{PgConfig, PgConnection};
use map_tile_studio::pgimport::{
    distinct_siblings, effective_srs, explicit_srs, first_proj4_line, has_prj_extension,
    import_failed_message, import_file_stem, import_plan, import_plan_for, import_report,
    import_source, import_source_verdict, import_table_name,
    import_target, ogr2ogr_args, ogr_dsn, resolve_srs, ImportParams, SrsResolution,
};

fn conn(id: &str, bundled: bool) -> PgConnection {
    PgConnection {
        id: id.to_string(),
        label: id.to_string(),
        host: "h".to_string(),
        port: 5432,
        dbname: "gis".to_string(),
        user: "u".to_string(),
        password: "p'w".to_string(),
        sslmode: "prefer".to_string(),
        enabled: true,
        bundled,
    }
}

fn cfg(cs: Vec<PgConnection>) -> PgConfig {
    PgConfig { refresh_seconds: 30, connections: cs }
}

#[test]
fn table_name_prefers_requested_name() {
    let t = Some("My Roads".to_string());
    let stem = Some("roads_2020".to_string());
    assert_eq!(import_table_name(&t, &stem), "my_roads");
    assert_eq!(import_table_name(&Some("   ".to_string()), &stem), "roads_2020");
    assert_eq!(import_table_name(&None, &Some("Dhaka-Wards".to_string())), "dhaka_wards");
    assert_eq!(import_table_name(&None, &None), "layer");
    assert_eq!(import_table_name(&Some("***".to_string()), &None), "layer");
}

#[test]
fn file_stem_drops_directories_and_extension() {
    assert_eq!(import_file_stem("/data/shp/roads.shp"), Some("roads".to_string()));
    assert_eq!(import_file_stem("wards.geo.json"), Some("wards.geo".to_string()));
    assert_eq!(import_file_stem("/"), None);
    assert_eq!(import_file_stem("shp/roads.shp"), Some("roads".to_string()));
    assert_eq!(import_file_stem("roads"), Some("roads".to_string()));
}

#[test]
fn target_is_requested_connection_then_bundled() {
    let c = cfg(vec![conn("bundled", true), conn("ext", false)]);
    assert_eq!(import_target(&c, &Some("ext".to_string())).unwrap().id, "ext");
    assert_eq!(import_target(&c, &Some("nope".to_string())).unwrap().id, "bundled");
    assert_eq!(import_target(&c, &None).unwrap().id, "bundled");
    let only_ext = cfg(vec![conn("ext", false)]);
    assert_eq!(
        import_target(&only_ext, &None).err(),
        Some("No target PostGIS connection configured.".to_string())
    );
}

#[test]
fn import_plan_refuses_missing_file() {
    let p = ImportParams {
        path: "/definitely/not/here/roads.shp".to_string(),
        conn_id: None,
        table: None,
        src_srs: None,
    };
    let c = cfg(vec![conn("bundled", true)]);
    assert_eq!(
        import_plan(&p, &c).err(),
        Some("File not found: /definitely/not/here/roads.shp".to_string())
    );
}

#[test]
fn import_plan_names_table_from_existing_file() {
    // `/bin/sh` is a file on every system these tests run on.
    let p = ImportParams {
        path: "/bin/sh".to_string(),
        conn_id: Some("ext".to_string()),
        table: None,
        src_srs: None,
    };
    let c = cfg(vec![conn("bundled", true), conn("ext", false)]);
    let (table, target) = import_plan(&p, &c).unwrap();
    assert_eq!(table, "sh");
    assert_eq!(target.id, "ext");
    let named = ImportParams { table: Some("Dhaka Roads".to_string()), ..p };
    let (table, target) = import_plan(&named, &cfg(vec![conn("bundled", true)])).unwrap();
    assert_eq!(table, "dhaka_roads");
    assert_eq!(target.id, "bundled");
}

#[test]
fn proj4_line_is_first_trimmed_match() {
    let out = "PROJ.4 string is:\n  '+proj=longlat +datum=WGS84 +no_defs'  \n+proj=other\n";
    assert_eq!(
        first_proj4_line(out),
        Some("'+proj=longlat +datum=WGS84 +no_defs'".to_string())
    );
    assert_eq!(first_proj4_line("no projection here\n"), None);
    assert_eq!(first_proj4_line(""), None);
}

#[test]
fn siblings_keep_first_occurrences() {
    let defs = vec![
        Some("+proj=a".to_string()),
        None,
        Some("+proj=b".to_string()),
        Some("+proj=a".to_string()),
    ];
    assert_eq!(distinct_siblings(&defs), vec!["+proj=a".to_string(), "+proj=b".to_string()]);
    assert!(distinct_siblings(&vec![None, None]).is_empty());
}

#[test]
fn srs_resolution_cases() {
    let wgs = "+proj=longlat +datum=WGS84 +no_defs".to_string();
    assert!(matches!(resolve_srs(Some(wgs.clone()), &vec![]), SrsResolution::UseFileCrs));
    let gulshan = "+proj=tmerc +lat_0=24.5 +lon_0=90.5 +ellps=evrst30 +units=m +no_defs".to_string();
    match resolve_srs(Some(gulshan.clone()), &vec![]) {
        SrsResolution::Override(s) => assert!(s.contains(BD_TOWGS84)),
        _ => panic!("Everest over Bangladesh must be overridden"),
    }
    assert!(matches!(resolve_srs(None, &vec![None]), SrsResolution::NoCrs));
    match resolve_srs(None, &vec![Some(wgs.clone()), Some(wgs.clone())]) {
        SrsResolution::Override(s) => assert_eq!(s, wgs),
        _ => panic!("one shared sibling definition must be used"),
    }
    assert!(matches!(
        resolve_srs(None, &vec![Some(wgs.clone()), Some(gulshan)]),
        SrsResolution::Ambiguous
    ));
}

#[test]
fn effective_srs_messages() {
    assert_eq!(effective_srs(SrsResolution::UseFileCrs), Ok(None));
    assert_eq!(
        effective_srs(SrsResolution::Override("EPSG:3106".to_string())),
        Ok(Some("EPSG:3106".to_string()))
    );
    assert!(effective_srs(SrsResolution::NoCrs).unwrap_err().starts_with("This file has no projection"));
    assert!(effective_srs(SrsResolution::Ambiguous)
        .unwrap_err()
        .contains("mixes shapefiles in different projections"));
}

#[test]
fn prj_extension_is_case_insensitive() {
    assert!(has_prj_extension("roads.prj"));
    assert!(has_prj_extension("ROADS.PRJ"));
    assert!(!has_prj_extension("roads.shp"));
    assert!(!has_prj_extension("prj"));
}

#[test]
fn explicit_srs_is_trimmed_or_absent() {
    assert_eq!(explicit_srs(&Some("  EPSG:3857 ".to_string())), Some("EPSG:3857".to_string()));
    assert_eq!(explicit_srs(&Some("   ".to_string())), None);
    assert_eq!(explicit_srs(&None), None);
}

#[test]
fn ogr_dsn_quotes_values() {
    let c = conn("x", false);
    assert_eq!(ogr_dsn(&c), "PG:host='h' port=5432 dbname='gis' user='u' password='p\\'w'");
}

#[test]
fn ogr2ogr_command_line() {
    let a = ogr2ogr_args("DSN".to_string(), "in.shp".to_string(), "roads".to_string(), None);
    assert_eq!(a.len(), 22);
    assert_eq!(&a[0..4], &["-f", "PostgreSQL", "DSN", "in.shp"]);
    assert_eq!(&a[4..8], &["-nln", "roads", "-t_srs", "EPSG:4326"]);
    assert_eq!(a[21], "-overwrite");
    let b = ogr2ogr_args(
        "DSN".to_string(),
        "in.shp".to_string(),
        "roads".to_string(),
        Some("EPSG:3106".to_string()),
    );
    assert_eq!(b.len(), 24);
    assert_eq!(&b[22..], &["-s_srs", "EPSG:3106"]);
}

#[test]
fn import_messages() {
    assert_eq!(import_failed_message("  boom \n", " out "), "Import failed.\nboom\nout");
    let r = import_report("roads".to_string(), Some("pg_roads".to_string()), "Bundled PostGIS");
    assert_eq!(r.table, "roads");
    assert_eq!(r.source_id, Some("pg_roads".to_string()));
    assert_eq!(r.message, "Imported “roads” into Bundled PostGIS.");
}

#[test]
fn import_source_checks_the_file_first() {
    assert_eq!(
        import_source_verdict("/x/roads.shp", false, Some("roads".to_string())),
        Err("File not found: /x/roads.shp".to_string())
    );
    assert_eq!(import_source_verdict("/x/roads.shp", true, Some("roads".to_string())), Ok(Some("roads".to_string())));
    assert_eq!(import_source("/definitely/not/here.shp"), Err("File not found: /definitely/not/here.shp".to_string()));
    assert_eq!(import_source("/bin/sh"), Ok(Some("sh".to_string())));
    let p = ImportParams { path: "/x/roads.shp".to_string(), conn_id: None, table: None, src_srs: None };
    let (t, c) = import_plan_for(&p, &cfg(vec![conn("bundled", true)]), Some("Roads 2024".to_string())).unwrap();
    assert_eq!((t.as_str(), c.id.as_str()), ("roads_2024", "bundled"));
    assert_eq!(import_plan_for(&p, &cfg(vec![]), None).err(), Some("No target PostGIS connection configured.".to_string()));
}
