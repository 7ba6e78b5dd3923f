//! The OGC API inventory: the links, conformance classes and collections
//! that the services register at startup and the landing page serves.

use vstd::prelude::*;

use vstd::string::StringExecFns;

verus! {

/// A typed hyperlink of the API surface.
pub struct ApiLink {
    pub href: String,
    pub rel: Option<String>,
    pub type_: Option<String>,
    pub title: Option<String>,
    pub hreflang: Option<String>,
    pub length: Option<u64>,
}

/// A collection entry of the landing inventory.
pub struct CoreCollection {
    pub id: String,
    pub title: Option<String>,
    pub links: Vec<ApiLink>,
}

/// Everything the registered services contribute to the API landing page.
pub struct OgcApiInventory {
    pub landing_page_links: Vec<ApiLink>,
    pub conformance_classes: Vec<String>,
    pub collections: Vec<CoreCollection>,
}

impl OgcApiInventory {
    /// An inventory with nothing registered yet.
    pub fn new() -> (r: Self)
        ensures
            r.landing_page_links@.len() == 0,
            r.conformance_classes@.len() == 0,
            r.collections@.len() == 0,
    {
        OgcApiInventory {
            landing_page_links: Vec::new(),
            conformance_classes: Vec::new(),
            collections: Vec::new(),
        }
    }
}

/// The links of one tile-set metadata entry, as the tiles endpoints serve
/// them: the set's own metadata document, the tiling scheme it uses, and the
/// tile item template.
pub fn tile_set_links(tile_matrix_set_id: &str) -> (r: Vec<ApiLink>)
    ensures
        r@.len() == 3,
        r@[0].href@ == "/tiles/"@ + tile_matrix_set_id@,
        r@[0].rel matches Some(s) && s@ == "self"@,
        r@[0].type_ matches Some(s) && s@ == "application/json"@,
        r@[0].title matches Some(s) && s@ == "Tileset metadata for "@ + tile_matrix_set_id@
            + " (as JSON)"@,
        r@[1].href@ == "/tileMatrixSets/WebMercatorQuad"@,
        r@[1].rel matches Some(s) && s@ == "http://www.opengis.net/def/rel/ogc/1.0/tiling-scheme"@,
        r@[1].type_ matches Some(s) && s@ == "application/json"@,
        r@[1].title matches Some(s) && s@ == "WebMercatorQuadTileMatrixSet definition (as JSON)"@,
        r@[2].href@ == "/map/tiles/"@ + tile_matrix_set_id@ + "/{tileMatrix}/{tileRow}/{tileCol}"@,
        r@[2].rel matches Some(s) && s@ == "item"@,
        r@[2].type_ matches Some(s) && s@ == "application/vnd.mapbox-vector-tile"@,
        r@[2].title matches Some(s) && s@ == "Tiles for "@ + tile_matrix_set_id@ + " (as MVT)"@,
{
    let mut href0 = String::from_str("/tiles/");
    href0.append(tile_matrix_set_id);
    let mut title0 = String::from_str("Tileset metadata for ");
    title0.append(tile_matrix_set_id);
    title0.append(" (as JSON)");
    let mut href2 = String::from_str("/map/tiles/");
    href2.append(tile_matrix_set_id);
    href2.append("/{tileMatrix}/{tileRow}/{tileCol}");
    let mut title2 = String::from_str("Tiles for ");
    title2.append(tile_matrix_set_id);
    title2.append(" (as MVT)");
    let mut links: Vec<ApiLink> = Vec::new();
    links.push(
        ApiLink {
            href: href0,
            rel: Some(String::from_str("self")),
            type_: Some(String::from_str("application/json")),
            title: Some(title0),
            hreflang: None,
            length: None,
        },
    );
    links.push(
        ApiLink {
            href: String::from_str("/tileMatrixSets/WebMercatorQuad"),
            rel: Some(String::from_str("http://www.opengis.net/def/rel/ogc/1.0/tiling-scheme")),
            type_: Some(String::from_str("application/json")),
            title: Some(String::from_str("WebMercatorQuadTileMatrixSet definition (as JSON)")),
            hreflang: None,
            length: None,
        },
    );
    links.push(
        ApiLink {
            href: href2,
            rel: Some(String::from_str("item")),
            type_: Some(String::from_str("application/vnd.mapbox-vector-tile")),
            title: Some(title2),
            hreflang: None,
            length: None,
        },
    );
    links
}

} // verus!
