use map_tile_studio::pgcmd::{
    bundled_running, conn_dto, delete_connection, drop_source_plan, find_conn, pg_test_result,
    plan_save_connection, slugify, ConnState, TestOutcome,
};
use map_tile_studio::pgconfig::{config_path_for, PgConfig, PgConnection};
use map_tile_studio::pgsql::{
    parse_props, tile_margin_supported,
    alter_role_sql, analyze_sql, database_exists_sql, drop_table_sql, sort_props, sql_ident,
    sql_lit, PgTable,
};
use map_tile_studio::registry::PgSourceEntry;

fn external(id: &str, label: &str) -> PgConnection {
    PgConnection {
        id: id.to_string(),
        label: label.to_string(),
        host: "db.example".to_string(),
        port: 5432,
        dbname: "gis".to_string(),
        user: "alice".to_string(),
        password: "secret".to_string(),
        sslmode: "prefer".to_string(),
        enabled: true,
        bundled: false,
    }
}

fn state(id: &str, bundled: bool, ok: bool, n: usize) -> ConnState {
    ConnState {
        id: id.to_string(),
        label: id.to_string(),
        bundled,
        ok,
        message: if ok { "fine".to_string() } else { String::new() },
        table_count: n,
    }
}

#[test]
fn bundled_default_connection() {
    let b = PgConnection::bundled_default();
    assert_eq!(b.id, "bundled");
    assert_eq!(b.label, "Bundled PostGIS");
    assert_eq!(b.host, "127.0.0.1");
    assert_eq!(b.port, 5433);
    assert_eq!(b.dbname, "gis");
    assert_eq!(b.user, "postgres");
    assert_eq!(b.password, "mapstudio");
    assert_eq!(b.sslmode, "disable");
    assert!(b.enabled && b.bundled);
}

#[test]
fn conn_string_quotes_every_value() {
    let mut c = external("x", "X");
    c.password = "it's a \\ pass".to_string();
    assert_eq!(
        c.conn_string(),
        "host='db.example' port=5432 dbname='gis' user='alice' password='it\\'s a \\\\ pass' sslmode='prefer'"
    );
    assert_eq!(
        c.maintenance_conn_string(),
        "host='db.example' port=5432 dbname='postgres' user='alice' password='it\\'s a \\\\ pass' sslmode='prefer'"
    );
}

#[test]
fn with_bundled_inserts_once() {
    let cfg = PgConfig { refresh_seconds: 10, connections: vec![external("a", "A")] };
    let cfg = cfg.with_bundled();
    assert_eq!(cfg.connections.len(), 2);
    assert!(cfg.connections[0].bundled);
    let again = cfg.with_bundled();
    assert_eq!(again.connections.len(), 2);
    assert_eq!(again.bundled().map(|c| c.id.clone()), Some("bundled".to_string()));
    let d = PgConfig::default_config();
    assert_eq!(d.refresh_seconds, 30);
    assert_eq!(d.connections.len(), 1);
}

#[test]
fn config_path_is_beside_maps_dir() {
    let p = config_path_for("/data/MapTileStudio/maps");
    assert_eq!(p, "/data/MapTileStudio/connections.json");
    assert_eq!(config_path_for("/"), "/connections.json");
    assert_eq!(config_path_for("/maps"), "/connections.json");
}

#[test]
fn slugs_are_canonical() {
    for s in ["--My Layer--", "Dhaka Roads", "***", "__x__", "ÀB c"] {
        let r = slugify(s);
        assert!(!r.is_empty() && !r.starts_with('_') && !r.ends_with('_'));
        assert!(r.chars().all(|c| c.is_ascii_lowercase() || c.is_ascii_digit() || c == '_'));
        assert_eq!(slugify(&r), r);
    }
    assert_eq!(slugify("--My Layer--"), "my_layer");
}

#[test]
fn slugify_names() {
    assert_eq!(slugify("My Roads (2024)"), "my_roads__2024");
    assert_eq!(slugify("__x__"), "x");
    assert_eq!(slugify("***"), "layer");
    assert_eq!(slugify(""), "layer");
}

#[test]
fn catalog_row_takes_first_matching_state() {
    let c = external("a", "A");
    let states = vec![state("b", false, true, 9), state("a", false, true, 3), state("a", false, false, 7)];
    let d = conn_dto(&c, &states);
    assert_eq!(d.id, "a");
    assert!(d.ok);
    assert_eq!(d.table_count, 3);
    assert_eq!(d.message, "fine");
    let none = conn_dto(&external("z", "Z"), &states);
    assert!(!none.ok);
    assert_eq!(none.table_count, 0);
    assert_eq!(none.message, "");
    assert!(!bundled_running(&states));
    assert!(bundled_running(&vec![state("bundled", true, true, 0)]));
}

#[test]
fn connection_test_messages() {
    let r = pg_test_result(TestOutcome::Tables(4));
    assert!(r.ok);
    assert_eq!(r.message, "Connected — 4 spatial table(s) found.");
    assert_eq!(r.table_count, 4);
    let r = pg_test_result(TestOutcome::DiscoveryFailed("boom".to_string()));
    assert!(!r.ok);
    assert_eq!(r.message, "Connected, but discovery failed: boom");
    let r = pg_test_result(TestOutcome::ConnectFailed("refused".to_string()));
    assert_eq!(r.message, "refused");
    assert_eq!(r.table_count, 0);
}

#[test]
fn saving_a_new_connection_appends_it_external() {
    let cfg = PgConfig::default_config();
    let mut c = external("", "Field Data");
    c.bundled = true;
    let plan = plan_save_connection(cfg, c);
    assert!(plan.alter_password.is_none());
    assert_eq!(plan.config.connections.len(), 2);
    let added = &plan.config.connections[1];
    assert_eq!(added.id, "field_data");
    assert!(!added.bundled);
}

#[test]
fn saving_the_bundled_connection_keeps_its_address() {
    let cfg = PgConfig::default_config();
    let mut edit = external("bundled", "Local");
    edit.password = "newpw".to_string();
    let plan = plan_save_connection(cfg, edit);
    let b = &plan.config.connections[0];
    assert_eq!(b.label, "Local");
    assert_eq!(b.host, "127.0.0.1");
    assert_eq!(b.port, 5433);
    assert_eq!(b.user, "postgres");
    assert_eq!(b.password, "newpw");
    let ch = plan.alter_password.expect("password change");
    assert_eq!(ch.existing.password, "mapstudio");
    assert_eq!(ch.new_password, "newpw");

    // A blank password keeps the stored one and changes nothing on the server.
    let mut keep = external("bundled", "Local");
    keep.password = String::new();
    let plan = plan_save_connection(PgConfig::default_config(), keep);
    assert_eq!(plan.config.connections[0].password, "mapstudio");
    assert!(plan.alter_password.is_none());
}

#[test]
fn deleting_connections() {
    let cfg = PgConfig {
        refresh_seconds: 30,
        connections: vec![PgConnection::bundled_default(), external("a", "A"), external("a", "A2")],
    };
    let e = delete_connection(cfg, "bundled");
    assert_eq!(e.err(), Some("The bundled PostGIS connection cannot be removed.".to_string()));
    let cfg = PgConfig {
        refresh_seconds: 30,
        connections: vec![PgConnection::bundled_default(), external("a", "A"), external("b", "B")],
    };
    let ok = delete_connection(cfg, "a").ok().unwrap();
    assert_eq!(ok.connections.len(), 2);
    assert_eq!(ok.connections[1].id, "b");
    assert_eq!(find_conn(&ok.connections, "b"), Some(1));
    assert_eq!(find_conn(&ok.connections, "a"), None);
}

#[test]
fn sql_quoting() {
    assert_eq!(sql_ident("a\"b"), "\"a\"\"b\"");
    assert_eq!(sql_lit("it's"), "'it''s'");
    assert_eq!(alter_role_sql("postgres", "p'w"), "ALTER ROLE \"postgres\" WITH PASSWORD 'p''w'");
    assert_eq!(analyze_sql("roads"), "ANALYZE \"public\".\"roads\"");
    assert_eq!(drop_table_sql("public", "roads"), "DROP TABLE IF EXISTS \"public\".\"roads\"");
    assert_eq!(database_exists_sql("gis"), "SELECT 1 FROM pg_database WHERE datname='gis'");
}

fn table(srid: i32) -> PgTable {
    PgTable {
        schema: "public".to_string(),
        table: "roads".to_string(),
        geom: "geom".to_string(),
        srid,
        geom_type: "MULTILINESTRING".to_string(),
        properties: vec![("name".to_string(), "text".to_string())],
    }
}

#[test]
fn mvt_sql_per_srid() {
    let q = table(3857).build_mvt_sql(true);
    assert_eq!(
        q,
        "SELECT ST_AsMVT(tile, 'roads', 4096, 'geom') FROM (SELECT ST_AsMVTGeom(ST_Transform(ST_CurveToLine(\"geom\"::geometry), 3857), ST_TileEnvelope($1, $2, $3), 4096, 64, true) AS geom, \"name\" FROM \"public\".\"roads\" WHERE \"geom\" && ST_Transform(ST_TileEnvelope($1, $2, $3, margin => 0.015625), 3857)) AS tile"
    );
    assert!(table(4326)
        .build_mvt_sql(true)
        .contains("ST_Expand(ST_Transform(ST_TileEnvelope($1, $2, $3), 4326), (0.015625 * 360) / 2^$1)"));
    assert!(table(3106)
        .build_mvt_sql(true)
        .contains("WHERE \"geom\" && ST_Transform(ST_TileEnvelope($1, $2, $3), 3106)) AS tile"));
    assert!(table(3857)
        .build_mvt_sql(false)
        .contains("WHERE \"geom\" && ST_Transform(ST_TileEnvelope($1, $2, $3), 3857)) AS tile"));
    assert_eq!(
        table(3106).exact_extent_sql(),
        "SELECT ST_XMin(b), ST_YMin(b), ST_XMax(b), ST_YMax(b) FROM (SELECT ST_Transform(ST_SetSRID(ST_Extent(\"geom\"::geometry), 3106), 4326) AS b FROM \"public\".\"roads\") s WHERE b IS NOT NULL"
    );
}

#[test]
fn props_sorted_by_name() {
    let props = vec![
        ("zeta".to_string(), "int4".to_string()),
        ("alpha".to_string(), "text".to_string()),
        ("Beta".to_string(), "float8".to_string()),
    ];
    let s = sort_props(&props);
    let names: Vec<&str> = s.iter().map(|p| p.0.as_str()).collect();
    assert_eq!(names, vec!["Beta", "alpha", "zeta"]);
    assert_eq!(s[1].1, "text");
}

#[test]
fn drop_source_needs_source_and_connection() {
    let cfg = PgConfig::default_config();
    let src = PgSourceEntry {
        id: "roads".to_string(),
        conn_id: "bundled".to_string(),
        conn_label: "Bundled PostGIS".to_string(),
        schema: "public".to_string(),
        table: "roads".to_string(),
        geom_type: "LINESTRING".to_string(),
        srid: 4326,
        fields: vec![],
        minzoom: 0,
        maxzoom: 18,
        sql: String::new(),
    };
    let sources = vec![src];
    assert_eq!(drop_source_plan(false, &sources, &cfg, "roads").err(), Some("PostGIS is not available.".to_string()));
    assert_eq!(drop_source_plan(true, &sources, &cfg, "rivers").err(), Some("Unknown source.".to_string()));
    let (c, sql) = drop_source_plan(true, &sources, &cfg, "roads").ok().unwrap();
    assert_eq!(c.id, "bundled");
    assert_eq!(sql, "DROP TABLE IF EXISTS \"public\".\"roads\"");
    let empty = PgConfig { refresh_seconds: 30, connections: vec![] };
    assert_eq!(drop_source_plan(true, &sources, &empty, "roads").err(), Some("Connection not found.".to_string()));
}

#[test]
fn tile_margin_needs_postgis_3_1() {
    assert!(tile_margin_supported("3.1.0"));
    assert!(tile_margin_supported("3.4.2"));
    assert!(tile_margin_supported("4"));
    assert!(!tile_margin_supported("3.0.9"));
    assert!(!tile_margin_supported("3"));
    assert!(!tile_margin_supported("2.5.5"));
    assert!(!tile_margin_supported("unknown"));
}

#[test]
fn table_properties_from_json() {
    let p = parse_props("{\"name\":\"text\",\"area\":\"float8\",\"n\":1}");
    assert_eq!(
        p,
        vec![
            ("area".to_string(), "float8".to_string()),
            ("n".to_string(), String::new()),
            ("name".to_string(), "text".to_string()),
        ]
    );
    assert!(parse_props("[1, 2]").is_empty());
    assert!(parse_props("not json").is_empty());
}
