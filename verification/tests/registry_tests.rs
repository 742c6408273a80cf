use map_tile_studio::ordering::{
    insert_sorted_unique, sorted_unique, stable_order_by_str, stable_order_desc, str_lt,
};
use map_tile_studio::pgcmd::ConnState;
use map_tile_studio::pgconfig::{PgConfig, PgConnection};
use map_tile_studio::pgsql::PgTable;
use map_tile_studio::registry::{
    connect_failed, discovery_failed, enabled_connections, file_source_ids, initial_state,
    needs_bundled_start, refresh_all, refresh_interval, refresh_start, refresh_step, register_tables,
    reuse_pool, slugify_id, ConnOutcome,
    servable_sources, sorted_source_ids, source_file_stem, tile_params, unique_slug, DEFAULT_MAXZOOM,
    DEFAULT_MINZOOM,
};

fn strs(v: &[&str]) -> Vec<String> {
    v.iter().map(|s| s.to_string()).collect()
}

fn conn(id: &str, enabled: bool) -> PgConnection {
    PgConnection {
        id: id.to_string(),
        label: format!("{id} label"),
        host: "h".to_string(),
        port: 5432,
        dbname: "d".to_string(),
        user: "u".to_string(),
        password: "p".to_string(),
        sslmode: "disable".to_string(),
        enabled,
        bundled: false,
    }
}

fn table(name: &str, srid: i32) -> PgTable {
    PgTable {
        schema: "public".to_string(),
        table: name.to_string(),
        geom: "geom".to_string(),
        srid,
        geom_type: "MULTIPOLYGON".to_string(),
        properties: vec![("name".to_string(), "text".to_string())],
    }
}

#[test]
fn string_order_is_lexicographic() {
    assert!(str_lt("a", "b"));
    assert!(str_lt("ab", "abc"));
    assert!(!str_lt("abc", "ab"));
    assert!(!str_lt("x", "x"));
    assert!(str_lt("Z", "a"));
}

#[test]
fn sorted_unique_lists() {
    assert_eq!(sorted_unique(strs(&["b", "a", "c", "a", "b"])), strs(&["a", "b", "c"]));
    assert!(sorted_unique(vec![]).is_empty());
    let mut v = strs(&["a", "c"]);
    insert_sorted_unique(&mut v, "b".to_string());
    insert_sorted_unique(&mut v, "c".to_string());
    insert_sorted_unique(&mut v, "0".to_string());
    assert_eq!(v, strs(&["0", "a", "b", "c"]));
}

#[test]
fn stable_orders() {
    // Equal keys keep their original order.
    assert_eq!(stable_order_by_str(&strs(&["b", "a", "b", "a"])), vec![1, 3, 0, 2]);
    assert_eq!(stable_order_desc(&vec![5, 9, 5, 1, 9]), vec![1, 4, 0, 2, 3]);
    assert!(stable_order_desc(&vec![]).is_empty());
}

#[test]
fn source_ids_are_slugs() {
    assert_eq!(slugify_id("Roads 2024"), "roads_2024");
    assert_eq!(slugify_id("a-B_c.d"), "a-b_c_d");
    assert_eq!(slugify_id(""), "layer");
}

#[test]
fn unique_ids_never_repeat() {
    let mut used = strs(&["roads"]);
    assert_eq!(unique_slug("Roads", &mut used), "roads_2");
    assert_eq!(unique_slug("roads", &mut used), "roads_3");
    assert_eq!(unique_slug("rivers", &mut used), "rivers");
    assert_eq!(used, strs(&["roads", "roads_2", "roads_3", "rivers"]));
}

#[test]
fn file_sources_reserve_their_ids() {
    assert_eq!(source_file_stem("Ortho.MBTiles"), Some("Ortho".to_string()));
    assert_eq!(source_file_stem("dem.tif"), Some("dem".to_string()));
    assert_eq!(source_file_stem("dem.TIFF"), Some("dem".to_string()));
    assert_eq!(source_file_stem("notes.txt"), None);
    assert_eq!(source_file_stem("noext"), None);
    assert_eq!(
        file_source_ids(&strs(&["Ortho.mbtiles", "readme.md", "My DEM.tif"])),
        strs(&["ortho", "my_dem"])
    );
}

#[test]
fn connection_states() {
    let c = PgConfig { refresh_seconds: 0, connections: vec![conn("a", true), conn("b", false), conn("c", true)] };
    let ids: Vec<String> = enabled_connections(&c).into_iter().map(|c| c.id).collect();
    assert_eq!(ids, strs(&["a", "c"]));
    let st = initial_state(&conn("a", true));
    assert_eq!((st.id.as_str(), st.label.as_str(), st.ok, st.table_count), ("a", "a label", false, 0));
    assert_eq!(st.message, "");
    let f = connect_failed(st, "timeout");
    assert_eq!(f.message, "connect failed: timeout");
    assert!(!f.ok);
    let d = discovery_failed(f, "permission denied".to_string());
    assert_eq!(d.message, "permission denied");
    assert!(reuse_pool(&Some("x".to_string()), &"x".to_string()));
    assert!(!reuse_pool(&Some("x".to_string()), &"y".to_string()));
    assert!(!reuse_pool(&None, &"x".to_string()));
    assert!(needs_bundled_start(false, true));
    assert!(needs_bundled_start(true, false));
    assert!(!needs_bundled_start(true, true));
    assert_eq!(refresh_interval(0), None);
    assert_eq!(refresh_interval(45), Some(45));
}

#[test]
fn tables_become_sources() {
    let c = conn("main", true);
    let st = ConnState {
        id: "main".to_string(),
        label: "main label".to_string(),
        bundled: false,
        ok: false,
        message: String::new(),
        table_count: 0,
    };
    let mut used = strs(&["roads"]);
    let (entries, st) =
        register_tables(&c, st, vec![table("roads", 3857), table("Rivers", 4326)], true, &mut used);
    assert_eq!(entries.len(), 2);
    assert_eq!(entries[0].id, "roads_2");
    assert_eq!(entries[1].id, "rivers");
    assert_eq!(entries[1].table, "Rivers");
    assert_eq!(entries[0].conn_id, "main");
    assert_eq!(entries[0].conn_label, "main label");
    assert_eq!((entries[0].minzoom, entries[0].maxzoom), (DEFAULT_MINZOOM, DEFAULT_MAXZOOM));
    assert!(entries[0].sql.contains("margin =>"));
    assert!(!entries[1].sql.contains("margin =>"));
    assert!(st.ok);
    assert_eq!(st.table_count, 2);
    assert_eq!(used, strs(&["roads", "roads_2", "rivers"]));
    let ids = sorted_source_ids(&entries);
    assert_eq!(ids, strs(&["rivers", "roads_2"]));
}

#[test]
fn tile_coordinates_fit_sql_integers() {
    assert_eq!(tile_params(3, 4, 5), Some((3, 4, 5)));
    assert_eq!(tile_params(3, 0x8000_0000, 5), None);
}

#[test]
fn table_ids_never_shadow_file_sources() {
    let mut used = file_source_ids(&strs(&["Roads.mbtiles", "rivers.tif", "notes.txt"]));
    assert_eq!(used, strs(&["roads", "rivers"]));
    let st = initial_state(&conn("c", true));
    let (entries, _) = register_tables(
        &conn("c", true),
        st,
        vec![table("roads", 3857), table("rivers", 3857), table("roads", 4326)],
        false,
        &mut used,
    );
    let ids: Vec<&str> = entries.iter().map(|e| e.id.as_str()).collect();
    assert_eq!(ids, vec!["roads_2", "rivers_2", "roads_3"]);
}

#[test]
fn servable_sources_are_sorted_stems() {
    assert_eq!(
        servable_sources(&strs(&["b.tif", "a.mbtiles", "a.tiff", "x.txt", "C.TIF"])),
        strs(&["C", "a", "b"])
    );
}

#[test]
fn refresh_keeps_ids_fresh() {
    let mut rs = refresh_start(&strs(&["roads.mbtiles", "notes.txt"]));
    assert_eq!(rs.used, strs(&["roads"]));
    let a = conn("a", true);
    let b = conn("b", true);
    let e1 = refresh_step(
        &mut rs,
        &a,
        ConnOutcome::Discovered { tables: vec![table("roads", 3857), table("rivers", 4326)], supports_margin: true },
    );
    let ids: Vec<String> = e1.iter().map(|e| e.id.clone()).collect();
    assert_eq!(ids, strs(&["roads_2", "rivers"]));
    assert!(e1.iter().all(|e| e.conn_id == "a" && e.minzoom == DEFAULT_MINZOOM && e.maxzoom == DEFAULT_MAXZOOM));
    let e2 = refresh_step(&mut rs, &b, ConnOutcome::Discovered { tables: vec![table("rivers", 4326)], supports_margin: false });
    assert_eq!(e2[0].id, "rivers_2");
    let e3 = refresh_step(&mut rs, &conn("c", true), ConnOutcome::ConnectFailed("refused".to_string()));
    assert!(e3.is_empty());
    assert_eq!(rs.states.len(), 3);
    assert_eq!((rs.states[0].ok, rs.states[0].table_count), (true, 2));
    assert_eq!((rs.states[1].ok, rs.states[1].table_count), (true, 1));
    assert_eq!((rs.states[2].ok, rs.states[2].message.as_str()), (false, "connect failed: refused"));
    assert_eq!(rs.used, strs(&["roads", "roads_2", "rivers", "rivers_2"]));
}

#[test]
fn whole_refresh_keeps_ids_fresh() {
    let conns = vec![conn("a", true), conn("b", true), conn("c", true)];
    let outcomes = vec![
        ConnOutcome::Discovered { tables: vec![table("roads", 3857), table("rivers", 4326)], supports_margin: true },
        ConnOutcome::DiscoveryFailed("permission denied".to_string()),
        ConnOutcome::Discovered { tables: vec![table("roads", 3857)], supports_margin: false },
    ];
    let (batches, states) = refresh_all(&strs(&["roads.mbtiles"]), &conns, outcomes);
    let ids: Vec<Vec<String>> = batches.iter().map(|b| b.iter().map(|e| e.id.clone()).collect()).collect();
    assert_eq!(ids, vec![strs(&["roads_2", "rivers"]), vec![], strs(&["roads_3"])]);
    assert_eq!(states.len(), 3);
    assert_eq!((states[0].ok, states[0].table_count), (true, 2));
    assert_eq!((states[1].ok, states[1].message.as_str(), states[1].table_count), (false, "permission denied", 0));
    assert_eq!((states[2].id.as_str(), states[2].table_count), ("c", 1));
    assert!(batches[2].iter().all(|e| e.conn_id == "c"));
}
