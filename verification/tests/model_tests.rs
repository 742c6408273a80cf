use map_tile_studio::model::TileGrid;

#[test]
fn grid_metadata_is_stable() {
    assert_eq!(TileGrid::WebMercator.epsg(), 3857);
    assert_eq!(TileGrid::WebMercator.profile(), "mercator");
    assert_eq!(TileGrid::Geodetic.epsg(), 4326);
    assert_eq!(TileGrid::Geodetic.profile(), "geodetic");
}
