//! A tile source backed by a local archive: its tiles are pre-rendered, so a
//! request is answered straight from the archive.

use vstd::prelude::*;

use crate::store::MbtilesStore;
use crate::tile::{TileContent, Xyz};

verus! {

/// A tile source reading from an archive it owns. Opening the archive file is
/// I/O outside the library; the source is built over the opened archive.
pub struct MbtilesSource {
    mbt: MbtilesStore,
}

impl MbtilesSource {
    /// The archive's logical contents.
    pub closed spec fn archive(&self) -> Map<Xyz, Seq<u8>> {
        self.mbt@
    }

    pub fn new(mbt: MbtilesStore) -> (s: Self)
        ensures
            s.archive() == mbt@,
    {
        MbtilesSource { mbt }
    }

    /// Serve one tile request from the archive. A coordinate the archive
    /// does not hold yields no content (the empty outcome), not an error.
    pub fn xyz_request(&self, tile: &Xyz) -> (r: Option<TileContent>)
        ensures
            match r {
                Some(c) => self.archive().contains_key(*tile) && c.body@
                    == self.archive()[*tile] && !c.gzip_encoded,
                None => !self.archive().contains_key(*tile),
            },
    {
        self.mbt.get_tile(tile)
    }

    /// Whether the archive holds a tile at this coordinate.
    pub fn has_tile(&self, tile: &Xyz) -> (r: bool)
        ensures
            r == self.archive().contains_key(*tile),
    {
        self.mbt.has_tile(tile)
    }
}

} // verus!
