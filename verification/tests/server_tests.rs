use map_tile_studio::tileserver::{
    clamp_workers, content_type_of, host_from_headers, is_safe_source, landing_html,
    parse_tile_path, port_candidates, request_segments, route, tile_request, tms_row,
    worker_count, zoom_or, Route,
};

#[test]
fn tile_paths_parse() {
    assert_eq!(
        parse_tile_path("/ortho/12/3001/1700.png"),
        Some(("ortho".to_string(), 12, 3001, 1700))
    );
    assert_eq!(
        parse_tile_path("//ortho/0/0/0?cache=1"),
        Some(("ortho".to_string(), 0, 0, 0))
    );
    assert_eq!(
        parse_tile_path("/Dhaka%20Ortho/5/1/2.webp"),
        Some(("Dhaka Ortho".to_string(), 5, 1, 2))
    );
    assert_eq!(parse_tile_path("/ortho/12/3001"), None);
    assert_eq!(parse_tile_path("/ortho/a/1/2"), None);
    assert_eq!(parse_tile_path("/..%2Fsecret/1/1/1"), None);
    assert_eq!(parse_tile_path("/C:%5Cx/1/1/1"), None);
}

#[test]
fn segments_and_requests() {
    assert_eq!(request_segments("/a//b/c?x=/y"), vec!["a", "b", "c"]);
    assert!(request_segments("/").is_empty());
    assert_eq!(tile_request("s", "1", "2", "3.png"), Some(("s".to_string(), 1, 2, 3)));
    assert_eq!(tile_request("s", "1", "2", "x.png"), None);
    assert_eq!(tile_request("a/b", "1", "2", "3"), None);
    assert!(is_safe_source("ortho-2024"));
    assert!(!is_safe_source(""));
    assert!(!is_safe_source("a..b"));
    assert!(!is_safe_source("a\\b"));
    assert!(!is_safe_source("c:x"));
}

#[test]
fn tms_rows_flip() {
    assert_eq!(tms_row(0, 0), Some(0));
    assert_eq!(tms_row(3, 0), Some(7));
    assert_eq!(tms_row(3, 7), Some(0));
    assert_eq!(tms_row(3, 8), None);
    assert_eq!(tms_row(31, 0), Some(0x7fff_ffff));
    // Flipping twice gives the row back.
    let t = tms_row(10, 123).unwrap();
    assert_eq!(tms_row(10, t), Some(123));
}

#[test]
fn content_types_by_signature() {
    assert_eq!(content_type_of(&vec![0x89, 0x50, 0x4e, 0x47, 0x0d]), "image/png");
    assert_eq!(
        content_type_of(&vec![0x52, 0x49, 0x46, 0x46, 0, 0, 0, 0, 0x57, 0x45, 0x42, 0x50]),
        "image/webp"
    );
    assert_eq!(content_type_of(&vec![0xff, 0xd8, 0xff, 0xe0]), "image/jpeg");
    assert_eq!(content_type_of(&vec![1, 2, 3]), "application/octet-stream");
    assert_eq!(content_type_of(&vec![]), "application/octet-stream");
}

#[test]
fn routes() {
    assert!(matches!(route(true, "/anything"), Route::Preflight));
    assert!(matches!(route(false, "/health"), Route::Health));
    assert!(matches!(route(false, "/"), Route::Landing));
    assert!(matches!(route(false, "/index.html?x=1"), Route::Landing));
    match route(false, "/ortho.json") {
        Route::TileJson(s) => assert_eq!(s, "ortho"),
        _ => panic!("a TileJSON request"),
    }
    assert!(matches!(route(false, "/../x.json"), Route::Tile));
    assert!(matches!(route(false, "/ortho/1/2/3.png"), Route::Tile));
}

#[test]
fn host_header_lookup() {
    let h = vec![
        ("Accept".to_string(), "*/*".to_string()),
        ("HoSt".to_string(), "192.168.1.5:8080".to_string()),
        ("host".to_string(), "other".to_string()),
    ];
    assert_eq!(host_from_headers(&h), "192.168.1.5:8080");
    assert_eq!(host_from_headers(&vec![]), "localhost");
}

#[test]
fn landing_page_lists_sources() {
    let empty = landing_html(&vec![], "http://h");
    assert!(empty.contains("0 map(s)."));
    assert!(empty.contains("No maps yet"));
    let page = landing_html(&vec!["a".to_string(), "b".to_string()], "http://h");
    assert!(page.contains("2 map(s). XYZ tiles at <code>http://h/"));
    assert!(!page.contains("No maps yet"));
    let ia = page.find("<li><b>a</b><br><code>http://h/a/{z}/{x}/{y}</code>").unwrap();
    let ib = page.find("<a href=\"/b.json\">TileJSON</a>").unwrap();
    assert!(ia < ib);
}

#[test]
fn zooms_workers_ports() {
    assert_eq!(zoom_or(&Some("14".to_string()), 0), 14);
    assert_eq!(zoom_or(&Some("x".to_string()), 22), 22);
    assert_eq!(zoom_or(&Some("300".to_string()), 22), 22);
    assert_eq!(zoom_or(&None, 7), 7);
    assert_eq!(clamp_workers(1), 2);
    assert_eq!(clamp_workers(8), 8);
    assert_eq!(clamp_workers(64), 16);
    let w = worker_count();
    assert!((2..=16).contains(&w));
    let p = port_candidates(3000);
    assert_eq!(p.len(), 30);
    assert_eq!(p[0], 3000);
    assert_eq!(p[29], 3029);
    assert_eq!(port_candidates(65530), vec![65530, 65531, 65532, 65533, 65534]);
}

#[test]
fn backing_files_in_lookup_order() {
    assert_eq!(
        map_tile_studio::tileserver::backing_files("/maps", "ortho"),
        vec!["/maps/ortho.mbtiles", "/maps/ortho.tif", "/maps/ortho.tiff"]
    );
}
