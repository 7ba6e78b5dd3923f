//! The tile cache-aside service.
//!
//! Resolving a tile consults the tileset's store first: a hit is served from
//! storage, a miss is rendered by the tileset's tile source (an external
//! collaborator) and the rendered content is written back so that the next
//! identical request is served from the store without rendering again. An
//! empty render result (a coordinate outside the data extent) is a valid "no
//! content" outcome, not an error. Content negotiation: a caller that accepts
//! gzip transport encoding is served a vector tile in its stored, compressed
//! form — it is never compressed a second time.

use vstd::prelude::*;

use crate::bytes::contains_seq;
use crate::compress::gzip_of;
use crate::fcgi::FcgiPool;
use crate::store::MbtilesStore;
use crate::tile::{format_from_name, spec_format_from_name, TileContent, TileFormat, Xyz};
use vstd::string::StringExecFns;

verus! {

/// A failure of the serving path.
#[derive(Clone, Copy, PartialEq, Eq, Structural, Debug)]
pub enum ServiceError {
    /// The request names a tileset that is not configured: a caller error,
    /// surfaced as not-found.
    TilesetNotFound,
    /// A backend communication error: the connection is evicted and the
    /// request fails as an internal error, never retried transparently.
    BackendCommunication,
}

/// The failure policy of a backend communication error during a request: the
/// broken connection is evicted from its pool, never resurrected and never
/// retried within the same request, and the caller gets the one typed
/// internal-error outcome.
pub fn backend_error(pool: &mut FcgiPool, conn: usize) -> (r: ServiceError)
    requires
        old(pool).wf(),
        old(pool).spec_leased().contains(conn),
    ensures
        final(pool).wf(),
        !final(pool).spec_leased().contains(conn),
        final(pool).spec_available() == old(pool).spec_available(),
        final(pool).spec_waiters() == old(pool).spec_waiters(),
        r == ServiceError::BackendCommunication,
{
    pool.evict(conn);
    ServiceError::BackendCommunication
}

/// The bytes of "gzip".
pub open spec fn gzip_token() -> Seq<u8> {
    seq![103u8, 122u8, 105u8, 112u8]
}

/// Whether an Accept-Encoding header value indicates gzip support.
pub fn accepts_gzip(accept_encoding: &[u8]) -> (r: bool)
    ensures
        r == contains_seq(accept_encoding@, gzip_token()),
{
    let mut token: Vec<u8> = Vec::new();
    token.push(103);
    token.push(122);
    token.push(105);
    token.push(112);
    proof {
        assert(token@ =~= gzip_token());
    }
    crate::bytes::contains_bytes(accept_encoding, token.as_slice())
}

/// One configured tileset: its name and its tile store.
pub struct Tileset {
    pub name: String,
    pub store: MbtilesStore,
}

/// Whether some configured tileset bears this name.
pub open spec fn has_tileset(ts: Seq<Tileset>, name: Seq<char>) -> bool {
    exists|i: int| 0 <= i < ts.len() && ts[i].name@ == name
}

/// The first configured tileset with this name, or -1.
pub open spec fn find_tileset(ts: Seq<Tileset>, name: Seq<char>) -> int
    decreases ts.len(),
{
    if ts.len() == 0 {
        -1
    } else {
        let r = find_tileset(ts.drop_last(), name);
        if r >= 0 {
            r
        } else if ts.last().name@ == name {
            ts.len() - 1
        } else {
            -1
        }
    }
}

proof fn lemma_find_tileset(ts: Seq<Tileset>, name: Seq<char>)
    ensures
        -1 <= find_tileset(ts, name) < ts.len(),
        find_tileset(ts, name) == -1 ==> !has_tileset(ts, name),
        0 <= find_tileset(ts, name) ==> ts[find_tileset(ts, name)].name@ == name && (forall|j: int|
            0 <= j < find_tileset(ts, name) ==> (#[trigger] ts[j]).name@ != name),
    decreases ts.len(),
{
    if ts.len() > 0 {
        lemma_find_tileset(ts.drop_last(), name);
        let r = find_tileset(ts.drop_last(), name);
        if r >= 0 {
            assert(ts.drop_last()[r] == ts[r]);
            assert forall|j: int| 0 <= j < r implies (#[trigger] ts[j]).name@ != name by {
                assert(ts.drop_last()[j] == ts[j]);
            }
        } else if ts.last().name@ == name {
            assert(ts[ts.len() - 1].name@ == name);
            assert forall|j: int| 0 <= j < ts.len() - 1 implies (#[trigger] ts[j]).name@
                != name by {
                assert(ts.drop_last()[j] == ts[j]);
            }
        } else {
            if has_tileset(ts, name) {
                let i = choose|i: int| 0 <= i < ts.len() && ts[i].name@ == name;
                assert(i < ts.len() - 1);
                assert(ts.drop_last()[i] == ts[i]);
                assert(has_tileset(ts.drop_last(), name));
            }
        }
    }
}

/// What the read step of `resolve` found.
pub enum CacheLookup {
    /// The store holds the tile: serve this content.
    Hit(TileContent),
    /// The store has no tile at this coordinate: the tile source must render
    /// it, and the result is handed to `tile_rendered`.
    Miss,
}

/// The cache-aside service over the configured tilesets.
pub struct TileService {
    tilesets: Vec<Tileset>,
}

impl TileService {
    pub closed spec fn tilesets_seq(&self) -> Seq<Tileset> {
        self.tilesets@
    }

    /// A service with no tilesets configured.
    pub fn new() -> (s: Self)
        ensures
            s.tilesets_seq() == Seq::<Tileset>::empty(),
    {
        let s = TileService { tilesets: Vec::new() };
        proof {
            assert(s.tilesets@ =~= Seq::<Tileset>::empty());
        }
        s
    }

    /// Configure one more tileset.
    pub fn add_tileset(&mut self, ts: Tileset)
        ensures
            final(self).tilesets_seq() == old(self).tilesets_seq().push(ts),
    {
        self.tilesets.push(ts);
    }

    fn tileset_index(&self, name: &String) -> (r: Option<usize>)
        ensures
            match r {
                Some(i) => i as int == find_tileset(self.tilesets@, name@) && i
                    < self.tilesets@.len() && self.tilesets@[i as int].name@ == name@,
                None => !has_tileset(self.tilesets@, name@),
            },
    {
        proof {
            lemma_find_tileset(self.tilesets@, name@);
        }
        let mut i: usize = 0;
        let n = self.tilesets.len();
        while i < n
            invariant
                i <= n == self.tilesets@.len(),
                forall|j: int| 0 <= j < i ==> (#[trigger] self.tilesets@[j]).name@ != name@,
            decreases n - i,
        {
            if self.tilesets[i].name == *name {
                proof {
                    lemma_find_tileset(self.tilesets@, name@);
                    assert(self.tilesets@[i as int].name@ == name@);
                    assert(has_tileset(self.tilesets@, name@));
                    let f = find_tileset(self.tilesets@, name@);
                    if f == -1 {
                        assert(false);
                    }
                    if f < i as int {
                        assert(self.tilesets@[f].name@ != name@);
                        assert(false);
                    }
                    if f > i as int {
                        assert(self.tilesets@[i as int].name@ != name@);
                        assert(false);
                    }
                }
                return Some(i);
            }
            proof {
                assert(self.tilesets@[i as int].name@ != name@);
            }
            i = i + 1;
        }
        proof {
            if has_tileset(self.tilesets@, name@) {
                let k = choose|k: int|
                    0 <= k < self.tilesets@.len() && self.tilesets@[k].name@ == name@;
                assert(false);
            }
        }
        None
    }

    /// The default output format of a tileset: the format of its store.
    pub fn tileset_format(&self, tileset: &String) -> (r: Result<Option<TileFormat>, ServiceError>)
        ensures
            ({
                let ts = self.tilesets_seq();
                match r {
                    Ok(f) => has_tileset(ts, tileset@) && f == ts[find_tileset(
                        ts,
                        tileset@,
                    )].store.spec_format(),
                    Err(ServiceError::TilesetNotFound) => !has_tileset(ts, tileset@),
                    _ => false,
                }
            }),
    {
        match self.tileset_index(tileset) {
            None => Err(ServiceError::TilesetNotFound),
            Some(i) => Ok(self.tilesets[i].store.format()),
        }
    }

    /// The read step of `resolve`: look the tileset up, then query its store
    /// under the coordinate and the requested format. A tile stored under
    /// that key is served as is; a vector tile is served pre-compressed when
    /// the caller accepts gzip (never compressed twice), decompressed
    /// otherwise. A store of another format holds nothing under the requested
    /// key, so such a request is a miss, like an absent coordinate: the
    /// caller renders and calls `tile_rendered`.
    pub fn tile_cached(
        &self,
        tileset: &String,
        tile: &Xyz,
        format: TileFormat,
        accept_gzip: bool,
    ) -> (r: Result<CacheLookup, ServiceError>)
        ensures
            ({
                let ts = self.tilesets_seq();
                let i = find_tileset(ts, tileset@);
                match r {
                    Err(ServiceError::TilesetNotFound) => !has_tileset(ts, tileset@),
                    Ok(CacheLookup::Miss) => has_tileset(ts, tileset@) && (ts[i].store.spec_format()
                        != Some(format) || !ts[i].store@.contains_key(*tile)),
                    Ok(CacheLookup::Hit(c)) => has_tileset(ts, tileset@) && ts[i].store.spec_format()
                        == Some(format) && ts[i].store@.contains_key(*tile) && c.gzip_encoded == (
                    accept_gzip && ts[i].store.is_mvt()) && c.body@ == (if accept_gzip
                        && ts[i].store.is_mvt() {
                        gzip_of(ts[i].store@[*tile])
                    } else {
                        ts[i].store@[*tile]
                    }) && (match c.content_type {
                        Some(ct) => ts[i].store.is_mvt() && ct@ == "application/x-protobuf"@,
                        None => !ts[i].store.is_mvt(),
                    }),
                    _ => false,
                }
            }),
    {
        let i = match self.tileset_index(tileset) {
            None => {
                return Err(ServiceError::TilesetNotFound);
            },
            Some(i) => i,
        };
        let store = &self.tilesets[i].store;
        let format_matches = match store.format() {
            Some(f2) => f2 == format,
            None => false,
        };
        if !format_matches {
            return Ok(CacheLookup::Miss);
        }
        if accept_gzip && format.is_compressible() {
            match store.get_tile_stored(tile) {
                Some(body) => Ok(
                    CacheLookup::Hit(
                        TileContent {
                            body,
                            content_type: Some(
                                String::from_str("application/x-protobuf"),
                            ),
                            gzip_encoded: true,
                        },
                    ),
                ),
                None => Ok(CacheLookup::Miss),
            }
        } else {
            match store.get_tile(tile) {
                Some(c) => Ok(CacheLookup::Hit(c)),
                None => Ok(CacheLookup::Miss),
            }
        }
    }

    /// The write-back step of `resolve`, after the tile source ran on a miss:
    /// no content (outside the data extent) resolves to "empty", rendered
    /// content of the store's own format is written back — so the same
    /// request is a hit from now on — and returned to the caller. Content of
    /// another format cannot enter this archive: it is still returned, and
    /// the skipped write shows in the unchanged service state.
    pub fn tile_rendered(
        &mut self,
        tileset: &String,
        tile: &Xyz,
        format: TileFormat,
        rendered: Option<Vec<u8>>,
    ) -> (r: Result<Option<TileContent>, ServiceError>)
        ensures
            ({
                let ts = old(self).tilesets_seq();
                let i = find_tileset(ts, tileset@);
                match r {
                    Err(ServiceError::TilesetNotFound) => !has_tileset(ts, tileset@) && *final(self)
                        == *old(self),
                    Ok(None) => has_tileset(ts, tileset@) && rendered is None && *final(self)
                        == *old(self),
                    Ok(Some(c)) => has_tileset(ts, tileset@) && (rendered matches Some(b)
                        && c.body@ == b@ && !c.gzip_encoded && (match c.content_type {
                        Some(ct) => format == TileFormat::Mvt && ct@ == "application/x-protobuf"@,
                        None => format != TileFormat::Mvt,
                    }) && (if ts[i].store.spec_format() == Some(format) {
                        final(self).tilesets_seq().len() == ts.len() && final(self).tilesets_seq()[i].name == ts[i].name && final(self).tilesets_seq()[i].store@
                            == ts[i].store@.insert(*tile, b@) && final(self).tilesets_seq()[i].store.spec_format() == ts[i].store.spec_format() && (
                        forall|j: int|
                            0 <= j < ts.len() && j != i ==> final(self).tilesets_seq()[j] == ts[j])
                    } else {
                        *final(self) == *old(self)
                    })),
                    _ => false,
                }
            }),
    {
        let i = match self.tileset_index(tileset) {
            None => {
                return Err(ServiceError::TilesetNotFound);
            },
            Some(i) => i,
        };
        match rendered {
            None => Ok(None),
            Some(body) => {
                let format_matches = match self.tilesets[i].store.format() {
                    Some(f2) => f2 == format,
                    None => false,
                };
                if format_matches {
                    let copy = vstd::slice::slice_to_vec(body.as_slice());
                    let mut ts = self.tilesets.remove(i);
                    let _ = ts.store.put_tile(tile, copy);
                    self.tilesets.insert(i, ts);
                    proof {
                        assert(self.tilesets@ =~= old(self).tilesets@.update(
                            i as int,
                            self.tilesets@[i as int],
                        ));
                    }
                }
                let content_type = if format.is_compressible() {
                    Some(String::from_str("application/x-protobuf"))
                } else {
                    None
                };
                Ok(Some(TileContent { body, content_type, gzip_encoded: false }))
            },
        }
    }
}

/// The output format a request resolves to: the caller's preference where it
/// names a supported format, else the tileset's default — an absent or
/// unreadable preference falls back to the default, and so does an
/// unsupported one such as "image/avif".
pub fn effective_format(preference: Option<&str>, default_format: TileFormat) -> (r: TileFormat)
    ensures
        r == (match preference {
            Some(p) => match spec_format_from_name(p@) {
                Some(f) => f,
                None => default_format,
            },
            None => default_format,
        }),
{
    match preference {
        Some(p) => match format_from_name(p) {
            Some(f) => f,
            None => default_format,
        },
        None => default_format,
    }
}

/// The cache-aside round trip: after a miss was rendered and written back,
/// the same request is a hit and is served the rendered content, so the tile
/// source is not consulted again. This follows from `tile_rendered`, which
/// ensures the tileset's store view gains the payload under the coordinate,
/// and `tile_cached`, which ensures a hit returns exactly what the view
/// holds.
pub proof fn lemma_rendered_then_hit(store: Map<Xyz, Seq<u8>>, tile: Xyz, body: Seq<u8>)
    ensures
        store.insert(tile, body).contains_key(tile),
        store.insert(tile, body)[tile] == body,
{
}

} // verus!
