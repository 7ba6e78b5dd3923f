use bbox_tiles::store::{MbtilesStore, ObjectStore};
use bbox_tiles::tile::{TileFormat, Xyz};
use std::io::Read;

#[test]
fn raster_put_get_roundtrip() {
    let mut store = MbtilesStore::new(Some(TileFormat::Png));
    let tile = Xyz::new(1, 2, 3);
    let bytes = vec![1u8, 2, 3, 4, 5];
    store.put_tile(&tile, bytes.clone()).unwrap();
    let content = store.get_tile(&tile).expect("tile was written");
    assert_eq!(content.body, bytes);
    assert!(content.content_type.is_none());
}

#[test]
fn mvt_put_get_roundtrip() {
    let mut store = MbtilesStore::new(Some(TileFormat::Mvt));
    let tile = Xyz::new(1, 2, 3);
    let bytes = b"a mapbox vector tile payload, which compresses".to_vec();
    store.put_tile(&tile, bytes.clone()).unwrap();
    let content = store.get_tile(&tile).expect("tile was written");
    assert_eq!(content.body, bytes);
    assert_eq!(
        content.content_type.as_deref(),
        Some("application/x-protobuf")
    );
}

#[test]
fn mvt_is_stored_gzip_compressed() {
    let mut store = MbtilesStore::new(Some(TileFormat::Mvt));
    let tile = Xyz::new(0, 0, 0);
    let bytes = b"payload payload payload payload".to_vec();
    store.put_tile(&tile, bytes.clone()).unwrap();
    let stored = store.get_tile_stored(&tile).expect("tile was written");
    // gzip magic, and not the raw payload
    assert_eq!(stored[0], 0x1f);
    assert_eq!(stored[1], 0x8b);
    assert_ne!(stored, bytes);
    // the stored stream is a real gzip encoding of the payload
    let mut gz = flate2::read::GzDecoder::new(stored.as_slice());
    let mut out = Vec::new();
    gz.read_to_end(&mut out).unwrap();
    assert_eq!(out, bytes);
}

#[test]
fn missing_tile_reads_none() {
    let store = MbtilesStore::new(Some(TileFormat::Png));
    assert!(store.get_tile(&Xyz::new(9, 9, 9)).is_none());
    assert!(!store.has_tile(&Xyz::new(9, 9, 9)));
}

#[test]
fn last_write_wins() {
    let mut store = MbtilesStore::new(Some(TileFormat::Png));
    let tile = Xyz::new(4, 4, 4);
    store.put_tile(&tile, vec![1]).unwrap();
    store.put_tile(&tile, vec![2]).unwrap();
    assert_eq!(store.get_tile(&tile).unwrap().body, vec![2]);
}

#[test]
fn batched_writes_behave_like_single_writes() {
    let mut store = MbtilesStore::new(Some(TileFormat::Png));
    let batch = vec![
        (Xyz::new(0, 0, 1), vec![10u8]),
        (Xyz::new(1, 0, 1), vec![11u8]),
        (Xyz::new(0, 0, 1), vec![12u8]), // duplicate: overrides the first
    ];
    store.put_tiles(&batch).unwrap();
    assert_eq!(store.get_tile(&Xyz::new(0, 0, 1)).unwrap().body, vec![12]);
    assert_eq!(store.get_tile(&Xyz::new(1, 0, 1)).unwrap().body, vec![11]);
    assert!(store.has_tile(&Xyz::new(1, 0, 1)));
}

#[test]
fn config_from_cli_arg_accepts_mbtiles_only() {
    let cfg = MbtilesStore::config_from_cli_arg("tiles/world.mbtiles").expect("archive name");
    assert_eq!(cfg.path, "tiles/world.mbtiles");
    assert!(MbtilesStore::config_from_cli_arg("tiles/world.gpkg").is_none());
    assert!(MbtilesStore::config_from_cli_arg("https://example.com/tiles").is_none());
}

#[test]
fn config_from_cli_arg_goes_by_the_extension() {
    // a dot-file has no extension: the leading dot starts no suffix
    assert!(MbtilesStore::config_from_cli_arg(".mbtiles").is_none());
    assert!(MbtilesStore::config_from_cli_arg("tiles/.mbtiles").is_none());
    // trailing separators are ignored when the name is inspected,
    // and the argument is kept verbatim as the path
    let cfg = MbtilesStore::config_from_cli_arg("world.mbtiles/").expect("archive name");
    assert_eq!(cfg.path, "world.mbtiles/");
    // only the last extension counts
    let cfg = MbtilesStore::config_from_cli_arg("a.tar.mbtiles").expect("archive name");
    assert_eq!(cfg.path, "a.tar.mbtiles");
    assert!(MbtilesStore::config_from_cli_arg("a.mbtiles.gz").is_none());
    assert!(MbtilesStore::config_from_cli_arg("").is_none());
}

#[test]
fn object_store_roundtrip() {
    let mut store = ObjectStore::new();
    store.put_object(b"a/b/1.png".to_vec(), vec![1, 2, 3]);
    assert_eq!(store.get_object(b"a/b/1.png"), Some(vec![1, 2, 3]));
    assert!(store.has_object(b"a/b/1.png"));
    assert!(store.get_object(b"a/b/2.png").is_none());
    store.put_object(b"a/b/1.png".to_vec(), vec![9]);
    assert_eq!(store.get_object(b"a/b/1.png"), Some(vec![9]));
}
