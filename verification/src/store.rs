//! Tile stores: a uniform read/write contract over persistent backends.
//!
//! `MbtilesStore` models the contents of a single-file tile archive keyed by
//! `(z, x, y)`, with last-write-wins duplicate handling and transparent gzip
//! compression of vector payloads. `ObjectStore` models a remote
//! object-storage bucket keyed by a path. The durable I/O behind each backend
//! lives outside the library; the logic that decides what is stored under
//! which key, and what a read returns, is all here.

use vstd::prelude::*;

use crate::compress::{gunzip_of, gzip_decode, gzip_encode, gzip_of};
use crate::tile::{TileContent, TileFormat, Xyz};
use vstd::string::StringExecFns;
use vstd::string::StringSliceAdditionalSpecFns;

verus! {

/// Configuration of an archive-backed store: the path of the archive file.
pub struct MbtilesStoreCfg {
    pub path: String,
}

/// A failure of a tile store backend.
#[derive(Clone, Copy, PartialEq, Eq, Structural, Debug)]
pub enum TileStoreError {
    ReadFailed,
    WriteFailed,
}

struct TileRecord {
    z: u8,
    x: u64,
    y: u64,
    data: Vec<u8>,
}

spec fn rec_key(r: TileRecord) -> Xyz {
    Xyz { x: r.x, y: r.y, z: r.z }
}

/// The mapping from coordinate to stored (possibly compressed) bytes that a
/// sequence of writes leaves behind: later writes override earlier ones.
spec fn stored_map_of(s: Seq<TileRecord>) -> Map<Xyz, Seq<u8>>
    decreases s.len(),
{
    if s.len() == 0 {
        Map::empty()
    } else {
        stored_map_of(s.drop_last()).insert(rec_key(s.last()), s.last().data@)
    }
}

/// What a reader recovers from the stored bytes of one tile.
pub open spec fn decode_stored(mvt: bool, stored: Seq<u8>) -> Seq<u8> {
    if mvt {
        gunzip_of(stored)
    } else {
        stored
    }
}

/// Stored bytes that the archive's reader can always decode: a gzip stream
/// together with its payload.
spec fn valid_stored(d: Seq<u8>) -> bool {
    exists|b: Seq<u8>| d == gzip_of(b) && gunzip_of(d) == b
}

/// The contents of a local single-file tile archive.
///
/// Its view is the logical mapping from coordinate to payload: for a
/// vector-format archive the payloads are kept gzip-compressed internally and
/// the view is the decompressed content, so compression is invisible to
/// callers.
pub struct MbtilesStore {
    format: Option<TileFormat>,
    entries: Vec<TileRecord>,
}

impl View for MbtilesStore {
    type V = Map<Xyz, Seq<u8>>;

    closed spec fn view(&self) -> Map<Xyz, Seq<u8>> {
        stored_map_of(self.entries@).map_values(|v: Seq<u8>| decode_stored(self.is_mvt(), v))
    }
}

proof fn lemma_stored_map_none(s: Seq<TileRecord>, k: Xyz)
    requires
        forall|i: int| 0 <= i < s.len() ==> rec_key(#[trigger] s[i]) != k,
    ensures
        !stored_map_of(s).contains_key(k),
    decreases s.len(),
{
    if s.len() > 0 {
        lemma_stored_map_none(s.drop_last(), k);
    }
}

proof fn lemma_stored_map_found(s: Seq<TileRecord>, k: Xyz, j: int)
    requires
        0 <= j < s.len(),
        rec_key(s[j]) == k,
        forall|i: int| j < i < s.len() ==> rec_key(#[trigger] s[i]) != k,
    ensures
        stored_map_of(s).contains_key(k),
        stored_map_of(s)[k] == s[j].data@,
    decreases s.len(),
{
    if j == s.len() - 1 {
    } else {
        lemma_stored_map_found(s.drop_last(), k, j);
    }
}

proof fn lemma_map_values_insert(
    m: Map<Xyz, Seq<u8>>,
    f: spec_fn(Seq<u8>) -> Seq<u8>,
    k: Xyz,
    v: Seq<u8>,
)
    ensures
        m.insert(k, v).map_values(f) == m.map_values(f).insert(k, f(v)),
{
    assert(m.insert(k, v).map_values(f) =~= m.map_values(f).insert(k, f(v)));
}

impl MbtilesStore {
    #[verifier::type_invariant]
    spec fn inv(&self) -> bool {
        self.is_mvt() ==> forall|i: int|
            0 <= i < self.entries@.len() ==> valid_stored(#[trigger] self.entries@[i].data@)
    }

    /// Whether this archive holds vector tiles, which are stored compressed.
    pub open spec fn is_mvt(&self) -> bool {
        self.spec_format() == Some(TileFormat::Mvt)
    }

    pub closed spec fn spec_format(&self) -> Option<TileFormat> {
        self.format
    }

    /// An empty archive for tiles of the given format.
    pub fn new(format: Option<TileFormat>) -> (s: Self)
        ensures
            s@ == Map::<Xyz, Seq<u8>>::empty(),
            s.spec_format() == format,
            s.is_mvt() == (format == Some(TileFormat::Mvt)),
    {
        let s = MbtilesStore { format, entries: Vec::new() };
        proof {
            assert(s@ =~= Map::<Xyz, Seq<u8>>::empty());
        }
        s
    }

    pub fn format(&self) -> (r: Option<TileFormat>)
        ensures
            r == self.spec_format(),
    {
        self.format
    }

    fn is_mvt_exec(&self) -> (r: bool)
        ensures
            r == self.is_mvt(),
    {
        match self.format {
            Some(TileFormat::Mvt) => true,
            _ => false,
        }
    }

    /// Build a store configuration from a command-line argument naming an
    /// archive file: accepted exactly when the argument's final path
    /// component (trailing separators ignored) has the extension "mbtiles" —
    /// a nonempty stem before the ".mbtiles" suffix, so the bare dot-file
    /// ".mbtiles" does not qualify. The argument is used verbatim as the
    /// archive path.
    pub fn config_from_cli_arg(file_or_url: &str) -> (r: Option<MbtilesStoreCfg>)
        ensures
            match r {
                Some(cfg) => is_mbtiles_archive_name(file_or_url.spec_bytes()) && cfg.path@
                    == file_or_url@,
                None => !is_mbtiles_archive_name(file_or_url.spec_bytes()),
            },
    {
        let b: &[u8] = file_or_url.as_bytes();
        proof {
            assert(b@.take(b@.len() as int) =~= b@);
        }
        let mut end = b.len();
        while end > 0 && b[end - 1] == 47
            invariant
                end <= b@.len(),
                trim_slashes(b@) == trim_slashes(b@.take(end as int)),
            decreases end,
        {
            proof {
                assert(b@.take(end as int).last() == b@[end - 1]);
                assert(b@.take(end as int).drop_last() =~= b@.take(end - 1));
            }
            end = end - 1;
        }
        proof {
            if end > 0 {
                assert(b@.take(end as int).last() == b@[end - 1]);
            }
            assert(trim_slashes(b@) == b@.take(end as int));
            assert(path_file_name(b@.take(end as int)) + b@.subrange(end as int, end as int)
                =~= path_file_name(b@.take(end as int)));
        }
        let mut start = end;
        while start > 0 && b[start - 1] != 47
            invariant
                start <= end <= b@.len(),
                trim_slashes(b@) == b@.take(end as int),
                path_file_name(b@.take(end as int)) =~= path_file_name(b@.take(start as int))
                    + b@.subrange(start as int, end as int),
            decreases start,
        {
            proof {
                assert(b@.take(start as int).last() == b@[start - 1]);
                assert(b@.take(start as int).drop_last() =~= b@.take(start - 1));
                assert(path_file_name(b@.take(start - 1)).push(b@[start - 1]) + b@.subrange(
                    start as int,
                    end as int,
                ) =~= path_file_name(b@.take(start - 1)) + b@.subrange(start - 1, end as int));
            }
            start = start - 1;
        }
        proof {
            if start > 0 {
                assert(b@.take(start as int).last() == b@[start - 1]);
            }
            assert(path_file_name(b@.take(start as int)) =~= Seq::<u8>::empty());
            assert(path_file_name(trim_slashes(b@)) =~= b@.subrange(start as int, end as int));
        }
        if end - start >= 9 && b[end - 8] == 46 && b[end - 7] == 109 && b[end - 6] == 98 && b[end
            - 5] == 116 && b[end - 4] == 105 && b[end - 3] == 108 && b[end - 2] == 101 && b[end
            - 1] == 115 {
            proof {
                let f = b@.subrange(start as int, end as int);
                assert(f.subrange(f.len() - 8, f.len() as int) =~= mbtiles_suffix());
            }
            Some(MbtilesStoreCfg { path: file_or_url.to_owned() })
        } else {
            proof {
                if is_mbtiles_archive_name(b@) {
                    let f = b@.subrange(start as int, end as int);
                    let sfx = f.subrange(f.len() - 8, f.len() as int);
                    assert(b@[end - 8] == sfx[0]);
                    assert(b@[end - 7] == sfx[1]);
                    assert(b@[end - 6] == sfx[2]);
                    assert(b@[end - 5] == sfx[3]);
                    assert(b@[end - 4] == sfx[4]);
                    assert(b@[end - 3] == sfx[5]);
                    assert(b@[end - 2] == sfx[6]);
                    assert(b@[end - 1] == sfx[7]);
                }
            }
            None
        }
    }

    fn find_latest(entries: &Vec<TileRecord>, tile: &Xyz) -> (r: Option<usize>)
        ensures
            match r {
                Some(i) => i < entries@.len() && stored_map_of(entries@).contains_key(*tile)
                    && stored_map_of(entries@)[*tile] == entries@[i as int].data@,
                None => !stored_map_of(entries@).contains_key(*tile),
            },
    {
        let mut i = entries.len();
        while i > 0
            invariant
                i <= entries@.len(),
                forall|j: int| i <= j < entries@.len() ==> rec_key(#[trigger] entries@[j]) != *tile,
            decreases i,
        {
            i = i - 1;
            let r = &entries[i];
            if r.z == tile.z && r.x == tile.x && r.y == tile.y {
                proof {
                    lemma_stored_map_found(entries@, *tile, i as int);
                }
                return Some(i);
            }
        }
        proof {
            lemma_stored_map_none(entries@, *tile);
        }
        None
    }

    /// Whether the archive holds a tile at this coordinate.
    pub fn has_tile(&self, tile: &Xyz) -> (r: bool)
        ensures
            r == self@.contains_key(*tile),
    {
        match Self::find_latest(&self.entries, tile) {
            Some(_) => true,
            None => false,
        }
    }

    /// Read one tile. Returns the logical payload: a vector-format archive
    /// decompresses transparently, so the result is what `put_tile` was given.
    pub fn get_tile(&self, tile: &Xyz) -> (r: Option<TileContent>)
        ensures
            match r {
                Some(c) => self@.contains_key(*tile) && c.body@ == self@[*tile] && !c.gzip_encoded
                    && (match c.content_type {
                    Some(ct) => self.is_mvt() && ct@ == "application/x-protobuf"@,
                    None => !self.is_mvt(),
                }),
                None => !self@.contains_key(*tile),
            },
    {
        proof {
            use_type_invariant(&*self);
        }
        match Self::find_latest(&self.entries, tile) {
            None => None,
            Some(i) => {
                let stored: &Vec<u8> = &self.entries[i].data;
                if self.is_mvt_exec() {
                    let body = gzip_decode(stored.as_slice());
                    Some(
                        TileContent {
                            body,
                            content_type: Some(String::from_str("application/x-protobuf")),
                            gzip_encoded: false,
                        },
                    )
                } else {
                    let body = vstd::slice::slice_to_vec(stored.as_slice());
                    Some(TileContent { body, content_type: None, gzip_encoded: false })
                }
            },
        }
    }

    /// Read one tile in its stored form: for a vector-format archive this is
    /// the gzip-compressed payload, usable directly by a caller that accepts
    /// gzip transport encoding without compressing again.
    pub fn get_tile_stored(&self, tile: &Xyz) -> (r: Option<Vec<u8>>)
        ensures
            match r {
                Some(d) => self@.contains_key(*tile) && (if self.is_mvt() {
                    d@ == gzip_of(self@[*tile])
                } else {
                    d@ == self@[*tile]
                }),
                None => !self@.contains_key(*tile),
            },
    {
        proof {
            use_type_invariant(&*self);
        }
        match Self::find_latest(&self.entries, tile) {
            None => None,
            Some(i) => Some(vstd::slice::slice_to_vec(self.entries[i].data.as_slice())),
        }
    }

    /// Write one tile: the view gains the payload under its coordinate,
    /// overriding any earlier write (last-write-wins). A vector-format archive
    /// compresses the payload before storing it.
    pub fn put_tile(&mut self, tile: &Xyz, data: Vec<u8>) -> (r: Result<(), TileStoreError>)
        ensures
            r is Ok,
            final(self)@ == old(self)@.insert(*tile, data@),
            final(self).spec_format() == old(self).spec_format(),
            final(self).is_mvt() == old(self).is_mvt(),
    {
        proof {
            use_type_invariant(&*self);
        }
        let mvt = self.is_mvt_exec();
        let ghost pre_entries = self.entries@;
        let stored: Vec<u8> = if mvt {
            gzip_encode(data.as_slice())
        } else {
            data
        };
        let rec = TileRecord { z: tile.z, x: tile.x, y: tile.y, data: stored };
        let ghost stored_bytes = rec.data@;
        let mut entries: Vec<TileRecord> = Vec::new();
        core::mem::swap(&mut entries, &mut self.entries);
        entries.push(rec);
        core::mem::swap(&mut entries, &mut self.entries);
        proof {
            assert(self.entries@.drop_last() =~= pre_entries);
            lemma_map_values_insert(
                stored_map_of(pre_entries),
                |v: Seq<u8>| decode_stored(self.is_mvt(), v),
                *tile,
                stored_bytes,
            );
        }
        Ok(())
    }

    /// Write a batch of tiles in one transaction: equivalent to writing each
    /// in order, so within the batch, too, the last write of a coordinate
    /// wins.
    pub fn put_tiles(&mut self, tiles: &Vec<(Xyz, Vec<u8>)>) -> (r: Result<(), TileStoreError>)
        ensures
            r is Ok,
            final(self)@ == put_batch(old(self)@, tiles@),
            final(self).spec_format() == old(self).spec_format(),
    {
        let ghost pre = *self;
        let mut i: usize = 0;
        while i < tiles.len()
            invariant
                i <= tiles@.len(),
                self@ == put_batch(pre@, tiles@.take(i as int)),
                self.spec_format() == pre.spec_format(),
                self.is_mvt() == pre.is_mvt(),
            decreases tiles@.len() - i,
        {
            let (xyz, data) = &tiles[i];
            let copy = vstd::slice::slice_to_vec(data.as_slice());
            let _ = self.put_tile(xyz, copy);
            proof {
                assert(tiles@.take(i + 1 as int).drop_last() =~= tiles@.take(i as int));
                assert(tiles@.take(i + 1 as int).last() == tiles@[i as int]);
            }
            i = i + 1;
        }
        proof {
            assert(tiles@.take(tiles@.len() as int) =~= tiles@);
        }
        Ok(())
    }
}

/// The byte suffix ".mbtiles".
pub open spec fn mbtiles_suffix() -> Seq<u8> {
    seq![46u8, 109u8, 98u8, 116u8, 105u8, 108u8, 101u8, 115u8]
}

/// A path with its trailing '/' separators removed.
pub open spec fn trim_slashes(s: Seq<u8>) -> Seq<u8>
    decreases s.len(),
{
    if s.len() > 0 && s.last() == 47 {
        trim_slashes(s.drop_last())
    } else {
        s
    }
}

/// The final component of a path: its longest suffix without a '/'.
pub open spec fn path_file_name(s: Seq<u8>) -> Seq<u8>
    decreases s.len(),
{
    if s.len() == 0 {
        s
    } else if s.last() == 47 {
        Seq::empty()
    } else {
        path_file_name(s.drop_last()).push(s.last())
    }
}

/// Whether a path (as bytes) names a tile-archive file: its final component,
/// with trailing separators ignored, carries the extension "mbtiles". The
/// component must be longer than the ".mbtiles" suffix itself: in a bare
/// dot-file name the leading dot starts no extension.
pub open spec fn is_mbtiles_archive_name(s: Seq<u8>) -> bool {
    let f = path_file_name(trim_slashes(s));
    f.len() > 8 && f.subrange(f.len() - 8, f.len() as int) == mbtiles_suffix()
}

/// What a sequence of single-tile writes leaves in a store: later entries of
/// the batch override earlier ones.
pub open spec fn put_batch(m: Map<Xyz, Seq<u8>>, tiles: Seq<(Xyz, Vec<u8>)>) -> Map<Xyz, Seq<u8>>
    decreases tiles.len(),
{
    if tiles.len() == 0 {
        m
    } else {
        put_batch(m, tiles.drop_last()).insert(tiles.last().0, tiles.last().1@)
    }
}

/// The round-trip law of a tile store: writing a payload under a coordinate
/// and reading the same coordinate back yields that payload. `put_tile`
/// ensures the view gains the payload under the key, and `get_tile` returns
/// exactly what the view holds, so the law holds for archive stores of either
/// format, modulo their internal compression transform; `put_object` and
/// `get_object` of the remote store ensure the same shape over path keys.
pub proof fn lemma_put_get_roundtrip<K, V>(m: Map<K, V>, k: K, data: V)
    ensures
        m.insert(k, data).contains_key(k),
        m.insert(k, data)[k] == data,
{
}

struct ObjectRecord {
    key: Vec<u8>,
    data: Vec<u8>,
}

/// The mapping that a sequence of object writes leaves behind: later writes
/// of a key override earlier ones.
spec fn object_map_of(s: Seq<ObjectRecord>) -> Map<Seq<u8>, Seq<u8>>
    decreases s.len(),
{
    if s.len() == 0 {
        Map::empty()
    } else {
        object_map_of(s.drop_last()).insert(s.last().key@, s.last().data@)
    }
}

/// The contents of a remote object-storage bucket: one object per tile,
/// keyed by a path. Standard PUT semantics: a write stores the payload under
/// its key, overriding any earlier object.
pub struct ObjectStore {
    objects: Vec<ObjectRecord>,
}

proof fn lemma_object_map_none(s: Seq<ObjectRecord>, k: Seq<u8>)
    requires
        forall|i: int| 0 <= i < s.len() ==> (#[trigger] s[i]).key@ != k,
    ensures
        !object_map_of(s).contains_key(k),
    decreases s.len(),
{
    if s.len() > 0 {
        lemma_object_map_none(s.drop_last(), k);
    }
}

proof fn lemma_object_map_found(s: Seq<ObjectRecord>, k: Seq<u8>, j: int)
    requires
        0 <= j < s.len(),
        s[j].key@ == k,
        forall|i: int| j < i < s.len() ==> (#[trigger] s[i]).key@ != k,
    ensures
        object_map_of(s).contains_key(k),
        object_map_of(s)[k] == s[j].data@,
    decreases s.len(),
{
    if j == s.len() - 1 {
    } else {
        lemma_object_map_found(s.drop_last(), k, j);
    }
}

impl View for ObjectStore {
    type V = Map<Seq<u8>, Seq<u8>>;

    closed spec fn view(&self) -> Map<Seq<u8>, Seq<u8>> {
        object_map_of(self.objects@)
    }
}

impl ObjectStore {
    /// An empty bucket.
    pub fn new() -> (s: Self)
        ensures
            s@ == Map::<Seq<u8>, Seq<u8>>::empty(),
    {
        ObjectStore { objects: Vec::new() }
    }

    /// Store one object under its key (PUT semantics).
    pub fn put_object(&mut self, key: Vec<u8>, data: Vec<u8>)
        ensures
            final(self)@ == old(self)@.insert(key@, data@),
    {
        let ghost pre = self.objects@;
        self.objects.push(ObjectRecord { key, data });
        proof {
            assert(self.objects@.drop_last() =~= pre);
        }
    }

    fn find_latest(&self, key: &[u8]) -> (r: Option<usize>)
        ensures
            match r {
                Some(i) => i < self.objects@.len() && self@.contains_key(key@) && self@[key@]
                    == self.objects@[i as int].data@,
                None => !self@.contains_key(key@),
            },
    {
        let mut i = self.objects.len();
        while i > 0
            invariant
                i <= self.objects@.len(),
                forall|j: int|
                    i <= j < self.objects@.len() ==> (#[trigger] self.objects@[j]).key@ != key@,
            decreases i,
        {
            i = i - 1;
            if crate::bytes::bytes_eq(self.objects[i].key.as_slice(), key) {
                proof {
                    lemma_object_map_found(self.objects@, key@, i as int);
                }
                return Some(i);
            }
        }
        proof {
            lemma_object_map_none(self.objects@, key@);
        }
        None
    }

    /// Whether an object is stored under this key.
    pub fn has_object(&self, key: &[u8]) -> (r: bool)
        ensures
            r == self@.contains_key(key@),
    {
        match self.find_latest(key) {
            Some(_) => true,
            None => false,
        }
    }

    /// Read one object back.
    pub fn get_object(&self, key: &[u8]) -> (r: Option<Vec<u8>>)
        ensures
            match r {
                Some(d) => self@.contains_key(key@) && d@ == self@[key@],
                None => !self@.contains_key(key@),
            },
    {
        match self.find_latest(key) {
            Some(i) => Some(vstd::slice::slice_to_vec(self.objects[i].data.as_slice())),
            None => None,
        }
    }
}

} // verus!
