use map_tile_studio::crs::{has_real_datum_shift, is_everest, lon_0_text, with_bd_datum_shift, BD_TOWGS84};

#[test]
fn everest_detected_by_name_and_axis() {
    assert!(is_everest("+proj=tmerc +ellps=evrst30 +units=m"));
    // GDAL's numeric form for the various Everest 1830 definitions.
    assert!(is_everest("+proj=tmerc +a=6377276.345 +rf=300.802 +units=m"));
    assert!(is_everest("+proj=cass +a=6377299.36 +rf=300.8017 +units=m"));
    assert!(is_everest("+proj=tmerc +a=6377301.243 +rf=300.8017255"));
    assert!(!is_everest("+proj=longlat +datum=wgs84"));
    assert!(!is_everest("+proj=utm +zone=46 +a=6378137 +rf=298.257223563"));
}

#[test]
fn real_vs_identity_datum_shift() {
    assert!(has_real_datum_shift("+proj=longlat +datum=wgs84 +no_defs"));
    assert!(has_real_datum_shift("+ellps=evrst30 +towgs84=283.729,735.942,261.143"));
    // An identity towgs84 is NOT a real transformation.
    assert!(!has_real_datum_shift("+ellps=evrst30 +towgs84=0,0,0,0,0,0,0"));
    assert!(!has_real_datum_shift("+ellps=evrst30 +towgs84=0,0,0"));
    assert!(!has_real_datum_shift("+proj=tmerc +ellps=evrst30 +units=m"));
}

#[test]
fn lon0_parsing() {
    let lon0 = |s: &str| lon_0_text(s).and_then(|t| t.parse::<f64>().ok());
    assert_eq!(lon0("+proj=tmerc +lon_0=90.5 +ellps=evrst30"), Some(90.5));
    assert_eq!(lon0("+proj=longlat +ellps=evrst30"), None);
    assert_eq!(lon_0_text("+proj=tmerc +lon_0=90.5 +ellps=evrst30"), Some("90.5".to_string()));
}

#[test]
fn injects_for_bangladesh_everest() {
    // Canonical Gulshan 303 (named ellipsoid).
    let canonical = "+proj=tmerc +lat_0=24.5 +lon_0=90.5 +k=1 +x_0=100000 +y_0=200000 +ellps=evrst30 +units=m +no_defs";
    let out = with_bd_datum_shift(canonical);
    assert!(out.contains(BD_TOWGS84), "named ellipsoid must get the shift: {out}");

    // Variant flattening -> numeric axis, still over Bangladesh.
    let numeric = "+proj=tmerc +lat_0=24.5 +lon_0=90.5 +a=6377276.345 +rf=300.802 +units=m +no_defs";
    assert!(with_bd_datum_shift(numeric).contains(BD_TOWGS84));

    // Identity towgs84 is stripped and the real shift applied (no duplicate).
    let identity = "+proj=tmerc +lon_0=90 +ellps=evrst30 +towgs84=0,0,0,0,0,0,0 +no_defs";
    let fixed = with_bd_datum_shift(identity);
    assert!(fixed.contains(BD_TOWGS84));
    assert!(!fixed.contains("towgs84=0,0,0"), "identity shift must be removed: {fixed}");
}

#[test]
fn leaves_correct_or_non_bangladesh_crs_untouched() {
    // Already has the real shift -> unchanged.
    let ok = "+proj=tmerc +lon_0=90.5 +ellps=evrst30 +towgs84=283.729,735.942,261.143 +no_defs";
    assert_eq!(with_bd_datum_shift(ok), ok);
    // Proper WGS84 -> unchanged.
    let wgs = "+proj=longlat +datum=WGS84 +no_defs";
    assert_eq!(with_bd_datum_shift(wgs), wgs);
    // Everest but centred over India (lon_0=80) -> not Bangladesh -> unchanged.
    let india = "+proj=tmerc +lat_0=0 +lon_0=80 +ellps=evrst30 +units=m +no_defs";
    assert_eq!(with_bd_datum_shift(india), india);
}
