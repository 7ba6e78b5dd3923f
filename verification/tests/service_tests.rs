use bbox_tiles::api::{tile_set_links, OgcApiInventory};
use bbox_tiles::bytes::{parse_u64, u64_to_dec};
use bbox_tiles::routing::{init_service, RouteParams, RoutingServerCfg, SyncMode};
use bbox_tiles::service::{
    accepts_gzip, effective_format, CacheLookup, ServiceError, TileService, Tileset,
};
use bbox_tiles::store::MbtilesStore;
use bbox_tiles::tile::{format_from_name, TileFormat, Xyz};
use bbox_tiles::tilesource::MbtilesSource;
use std::io::Read;

fn service_with(name: &str, format: TileFormat) -> TileService {
    let mut svc = TileService::new();
    svc.add_tileset(Tileset { name: name.to_string(), store: MbtilesStore::new(Some(format)) });
    svc
}

// A stub tile source: renders a fixed payload and counts its invocations.
struct StubSource {
    payload: Vec<u8>,
    calls: usize,
}

impl StubSource {
    fn render(&mut self) -> Option<Vec<u8>> {
        self.calls += 1;
        Some(self.payload.clone())
    }
}

#[test]
fn cache_aside_end_to_end() {
    let name = "t".to_string();
    let mut svc = service_with("t", TileFormat::Mvt);
    let tile = Xyz::new(1, 2, 3);
    let mut source = StubSource { payload: b"rendered vector tile bytes".to_vec(), calls: 0 };

    // first request: empty store, so the service asks for a render
    let rendered = match svc.tile_cached(&name, &tile, TileFormat::Mvt, false).unwrap() {
        CacheLookup::Miss => source.render(),
        CacheLookup::Hit(_) => panic!("the store is empty"),
    };
    let served = svc.tile_rendered(&name, &tile, TileFormat::Mvt, rendered).unwrap().expect("content");
    assert_eq!(served.body, source.payload);
    assert_eq!(served.content_type.as_deref(), Some("application/x-protobuf"));

    // the store now holds the gzip-compressed result
    match svc.tile_cached(&name, &tile, TileFormat::Mvt, true).unwrap() {
        CacheLookup::Hit(c) => {
            assert!(c.gzip_encoded);
            assert_eq!(c.body[0], 0x1f);
            assert_eq!(c.body[1], 0x8b);
            let mut gz = flate2::read::GzDecoder::new(c.body.as_slice());
            let mut out = Vec::new();
            gz.read_to_end(&mut out).unwrap();
            assert_eq!(out, source.payload);
        },
        CacheLookup::Miss => panic!("the tile was written back"),
    }

    // second identical request: served from the store, the source not invoked
    match svc.tile_cached(&name, &tile, TileFormat::Mvt, false).unwrap() {
        CacheLookup::Hit(c) => {
            assert!(!c.gzip_encoded);
            assert_eq!(c.body, source.payload);
        },
        CacheLookup::Miss => panic!("the tile was written back"),
    }
    assert_eq!(source.calls, 1);
}

#[test]
fn unknown_tileset_is_not_found() {
    let mut svc = service_with("t", TileFormat::Png);
    let other = "missing".to_string();
    let tile = Xyz::new(0, 0, 0);
    assert!(matches!(
        svc.tile_cached(&other, &tile, TileFormat::Png, false),
        Err(ServiceError::TilesetNotFound)
    ));
    assert!(matches!(
        svc.tile_rendered(&other, &tile, TileFormat::Png, Some(vec![1])),
        Err(ServiceError::TilesetNotFound)
    ));
    assert!(matches!(svc.tileset_format(&other), Err(ServiceError::TilesetNotFound)));
}

#[test]
fn empty_render_result_is_no_content() {
    let name = "t".to_string();
    let mut svc = service_with("t", TileFormat::Png);
    let tile = Xyz::new(5, 5, 5);
    // the coordinate lies outside the data extent: the source yields nothing
    assert_eq!(svc.tile_rendered(&name, &tile, TileFormat::Png, None).unwrap().map(|c| c.body), None);
    // nothing was written back
    assert!(matches!(
        svc.tile_cached(&name, &tile, TileFormat::Png, false).unwrap(),
        CacheLookup::Miss
    ));
}

#[test]
fn raster_write_back_carries_no_vector_label() {
    let name = "t".to_string();
    let mut svc = service_with("t", TileFormat::Png);
    let tile = Xyz::new(2, 2, 2);
    let served =
        svc.tile_rendered(&name, &tile, TileFormat::Png, Some(vec![9, 9])).unwrap().expect("content");
    // the write-back response and the later cache hit agree on the label
    assert!(served.content_type.is_none());
    match svc.tile_cached(&name, &tile, TileFormat::Png, false).unwrap() {
        CacheLookup::Hit(c) => assert!(c.content_type.is_none()),
        CacheLookup::Miss => panic!("the tile was written back"),
    }
}

#[test]
fn requested_format_falls_back_to_the_default() {
    assert_eq!(effective_format(Some("image/png"), TileFormat::Mvt), TileFormat::Png);
    // the unsupported image/avif preference is overridden by the default
    assert_eq!(effective_format(Some("image/avif"), TileFormat::Mvt), TileFormat::Mvt);
    assert_eq!(effective_format(None, TileFormat::Webp), TileFormat::Webp);
    assert_eq!(
        format_from_name("application/vnd.mapbox-vector-tile"),
        Some(TileFormat::Mvt)
    );
    assert_eq!(format_from_name("jpg"), Some(TileFormat::Jpeg));
    assert_eq!(format_from_name("nonsense"), None);
}

#[test]
fn format_mismatch_is_a_miss_and_never_stored() {
    let name = "t".to_string();
    let mut svc = service_with("t", TileFormat::Mvt);
    let tile = Xyz::new(1, 1, 1);
    assert_eq!(svc.tileset_format(&name).unwrap(), Some(TileFormat::Mvt));
    // write back under the tileset's own format
    svc.tile_rendered(&name, &tile, TileFormat::Mvt, Some(vec![1, 2])).unwrap();
    // a request for another format finds nothing under its key
    assert!(matches!(
        svc.tile_cached(&name, &tile, TileFormat::Png, false).unwrap(),
        CacheLookup::Miss
    ));
    // content of another format is returned but cannot enter this archive
    let c = svc
        .tile_rendered(&name, &tile, TileFormat::Png, Some(vec![9]))
        .unwrap()
        .expect("content");
    assert_eq!(c.body, vec![9]);
    assert!(c.content_type.is_none());
    match svc.tile_cached(&name, &tile, TileFormat::Mvt, false).unwrap() {
        CacheLookup::Hit(c) => assert_eq!(c.body, vec![1, 2]),
        CacheLookup::Miss => panic!("the archive kept its own tile"),
    }
}

#[test]
fn accept_encoding_gzip_detection() {
    assert!(accepts_gzip(b"gzip, deflate, br"));
    assert!(accepts_gzip(b"deflate;q=0.5,gzip"));
    assert!(!accepts_gzip(b"deflate, br"));
    assert!(!accepts_gzip(b""));
}

#[test]
fn inventory_starts_empty_and_routing_registers() {
    let mut api = OgcApiInventory::new();
    assert!(api.landing_page_links.is_empty());
    assert!(api.conformance_classes.is_empty());
    assert!(api.collections.is_empty());
    init_service(&mut api);
    assert_eq!(api.landing_page_links.len(), 1);
    assert_eq!(api.landing_page_links[0].href, "/routes");
    assert_eq!(api.landing_page_links[0].rel.as_deref(), Some("routes"));
    assert_eq!(
        api.conformance_classes,
        vec![
            "http://www.opengis.net/spec/ogcapi-routes-1/1.0.0-draft.1/req/core".to_string(),
            "http://www.opengis.net/spec/ogcapi-processes-1/1.0/conf/json".to_string(),
            "http://www.opengis.net/spec/ogcapi-processes-1/1.0/conf/oas30".to_string(),
        ]
    );
}

#[test]
fn route_params_mode_gate() {
    assert!(RouteParams::new(Some(SyncMode::Async)).is_async());
    assert!(!RouteParams::new(Some(SyncMode::Sync)).is_async());
    assert!(!RouteParams::new(None).is_async());
}

#[test]
fn routing_config_carries_services() {
    let cfg = RoutingServerCfg::from_config(Vec::new());
    assert!(cfg.service.is_empty());
    let d: RoutingServerCfg = Default::default();
    assert!(d.service.is_empty());
}

#[test]
fn decimal_parse_and_format() {
    assert_eq!(parse_u64(b"0"), Some(0));
    assert_eq!(parse_u64(b"2500"), Some(2500));
    assert_eq!(parse_u64(b"18446744073709551615"), Some(u64::MAX));
    assert_eq!(parse_u64(b"18446744073709551616"), None);
    assert_eq!(parse_u64(b""), None);
    assert_eq!(parse_u64(b"12a"), None);
    assert_eq!(u64_to_dec(0), b"0".to_vec());
    assert_eq!(u64_to_dec(907), b"907".to_vec());
    assert_eq!(u64_to_dec(u64::MAX), b"18446744073709551615".to_vec());
}

#[test]
fn tile_source_serves_from_archive() {
    let mut store = MbtilesStore::new(Some(TileFormat::Mvt));
    let tile = Xyz::new(1, 2, 3);
    store.put_tile(&tile, b"tile".to_vec()).unwrap();
    let source = MbtilesSource::new(store);
    assert!(source.has_tile(&tile));
    assert!(!source.has_tile(&Xyz::new(0, 0, 0)));
    let c = source.xyz_request(&tile).expect("the archive holds the tile");
    assert_eq!(c.body, b"tile".to_vec());
    // an absent coordinate is the empty outcome, not an error
    assert!(source.xyz_request(&Xyz::new(7, 7, 7)).is_none());
}

#[test]
fn tile_set_metadata_links() {
    let links = tile_set_links("mbtiles_mvt_fl");
    assert_eq!(links.len(), 3);
    assert_eq!(links[0].href, "/tiles/mbtiles_mvt_fl");
    assert_eq!(links[0].rel.as_deref(), Some("self"));
    assert_eq!(
        links[0].title.as_deref(),
        Some("Tileset metadata for mbtiles_mvt_fl (as JSON)")
    );
    assert_eq!(links[1].href, "/tileMatrixSets/WebMercatorQuad");
    assert_eq!(
        links[2].href,
        "/map/tiles/mbtiles_mvt_fl/{tileMatrix}/{tileRow}/{tileCol}"
    );
    assert_eq!(
        links[2].type_.as_deref(),
        Some("application/vnd.mapbox-vector-tile")
    );
}
