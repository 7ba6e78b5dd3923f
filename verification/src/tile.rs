//! Tile coordinates, formats and content.

use vstd::prelude::*;

use vstd::string::StringExecFns;

verus! {

/// A tile coordinate: zoom level `z`, column `x`, row `y`.
#[derive(Clone, Copy, PartialEq, Eq, Structural, Debug)]
pub struct Xyz {
    pub x: u64,
    pub y: u64,
    pub z: u8,
}

impl Xyz {
    pub fn new(x: u64, y: u64, z: u8) -> (r: Xyz)
        ensures
            r.x == x,
            r.y == y,
            r.z == z,
    {
        Xyz { x, y, z }
    }
}

/// The output encoding of a tile. `Mvt` (vector) payloads are compressible;
/// the raster encodings are stored byte-for-byte.
#[derive(Clone, Copy, PartialEq, Eq, Structural, Debug)]
pub enum TileFormat {
    Mvt,
    Png,
    Jpeg,
    Webp,
}

impl TileFormat {
    /// Whether payloads of this format are compressed at the store layer.
    pub fn is_compressible(&self) -> (r: bool)
        ensures
            r == (*self == TileFormat::Mvt),
    {
        match self {
            TileFormat::Mvt => true,
            _ => false,
        }
    }
}

/// The format a request names, by its short name or media type; an
/// unrecognized name (such as "image/avif") is no supported format.
pub open spec fn spec_format_from_name(name: Seq<char>) -> Option<TileFormat> {
    if name == "mvt"@ || name == "pbf"@ || name == "application/vnd.mapbox-vector-tile"@ || name
        == "application/x-protobuf"@ {
        Some(TileFormat::Mvt)
    } else if name == "png"@ || name == "image/png"@ {
        Some(TileFormat::Png)
    } else if name == "jpeg"@ || name == "jpg"@ || name == "image/jpeg"@ {
        Some(TileFormat::Jpeg)
    } else if name == "webp"@ || name == "image/webp"@ {
        Some(TileFormat::Webp)
    } else {
        None
    }
}

/// Parse a format name or media type.
pub fn format_from_name(name: &str) -> (r: Option<TileFormat>)
    ensures
        r == spec_format_from_name(name@),
{
    let o = name.to_owned();
    if o == String::from_str("mvt") || o == String::from_str("pbf") || o == String::from_str(
        "application/vnd.mapbox-vector-tile",
    ) || o == String::from_str("application/x-protobuf") {
        Some(TileFormat::Mvt)
    } else if o == String::from_str("png") || o == String::from_str("image/png") {
        Some(TileFormat::Png)
    } else if o == String::from_str("jpeg") || o == String::from_str("jpg") || o
        == String::from_str("image/jpeg") {
        Some(TileFormat::Jpeg)
    } else if o == String::from_str("webp") || o == String::from_str("image/webp") {
        Some(TileFormat::Webp)
    } else {
        None
    }
}

/// An opaque tile payload together with its transport metadata.
pub struct TileContent {
    pub body: Vec<u8>,
    pub content_type: Option<String>,
    /// Whether `body` is gzip-encoded for transport (content negotiation).
    pub gzip_encoded: bool,
}

} // verus!
