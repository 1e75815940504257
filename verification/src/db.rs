use vstd::prelude::*;
use crate::color::Rgb;
use crate::errors::MosaicError;
use crate::imaging::{get_thumb, resampled, rgb_thumb_to_pixels};
use crate::raster::Image;

verus! {

/// One persisted signature record: the thumbnail's source path, the sample
/// resolution it was extracted at, and its `res * res` color samples in
/// row-major order.
pub struct ThumbnailData {
    pub path: String,
    pub res: u32,
    pub colors: Vec<Rgb>,
}

impl ThumbnailData {
    /// The record's identity key is `(path, res)`.
    pub open spec fn key_matches(self, path: Seq<char>, res: u32) -> bool {
        self.path@ == path && self.res == res
    }
}

/// The thumbnail database: an ordered, append-only sequence of records,
/// unique by identity key.
pub struct ThumbnailDb {
    pub thumbs: Vec<ThumbnailData>,
}

impl ThumbnailDb {
    /// Some record carries the identity key `(path, res)`.
    pub open spec fn contains_key(self, path: Seq<char>, res: u32) -> bool {
        exists|i: int|
            0 <= i < self.thumbs@.len() && self.thumbs@[i].key_matches(path, res)
    }

    /// No two records share an identity key.
    pub open spec fn wf(self) -> bool {
        forall|i: int, j: int|
            0 <= i < j < self.thumbs@.len() ==> !self.thumbs@[j].key_matches(
                self.thumbs@[i].path@,
                self.thumbs@[i].res,
            )
    }

    /// An empty database.
    pub fn new() -> (r: ThumbnailDb)
        ensures
            r.thumbs@.len() == 0,
            r.wf(),
    {
        ThumbnailDb { thumbs: Vec::new() }
    }

    /// Number of records.
    pub fn len(&self) -> (r: usize)
        ensures
            r == self.thumbs@.len(),
    {
        self.thumbs.len()
    }

    /// Identity-key lookup.
    pub fn contains(&self, path: &String, res: u32) -> (r: bool)
        ensures
            r == self.contains_key(path@, res),
    {
        let n = self.thumbs.len();
        let mut i: usize = 0;
        while i < n
            invariant
                i <= n,
                n == self.thumbs@.len(),
                forall|j: int| 0 <= j < i ==> !self.thumbs@[j].key_matches(path@, res),
            decreases n - i,
        {
            let t = &self.thumbs[i];
            if t.res == res && t.path == *path {
                return true;
            }
            i = i + 1;
        }
        false
    }

    /// Appends a record whose key the caller has verified absent.
    pub fn append(&mut self, record: ThumbnailData)
        requires
            !old(self).contains_key(record.path@, record.res),
        ensures
            final(self).thumbs@ == old(self).thumbs@.push(record),
            old(self).wf() ==> final(self).wf(),
    {
        proof {
            let n = self.thumbs@.len() as int;
            if old(self).wf() {
                assert forall|i: int, j: int|
                    0 <= i < j < n + 1 implies !old(self).thumbs@.push(record)[j].key_matches(
                    old(self).thumbs@.push(record)[i].path@,
                    old(self).thumbs@.push(record)[i].res,
                ) by {
                    if j < n {
                        assert(!old(self).thumbs@[j].key_matches(
                            old(self).thumbs@[i].path@,
                            old(self).thumbs@[i].res,
                        ));
                    } else {
                        assert(!old(self).thumbs@[i].key_matches(record.path@, record.res));
                    }
                }
            }
        }
        self.thumbs.push(record);
    }
}

/// Extracts a signature from a decoded thumbnail image and appends the new
/// record for `(path, res)`.
pub fn import_thumb(db: &mut ThumbnailDb, path: String, res: u32, img: &Image)
    requires
        old(db).wf(),
        !old(db).contains_key(path@, res),
        img.wf(),
        img.width >= 1,
        img.height >= 1,
        res >= 1,
        res * res <= usize::MAX,
    ensures
        final(db).wf(),
        final(db).thumbs@.len() == old(db).thumbs@.len() + 1,
        final(db).thumbs@.subrange(0, old(db).thumbs@.len() as int) == old(db).thumbs@,
        final(db).thumbs@.last().path@ == path@,
        final(db).thumbs@.last().res == res,
        final(db).thumbs@.last().colors@ == resampled(img@, res),
        final(db).contains_key(path@, res),
{
    let ghost p = path@;
    let thumb = get_thumb(img, res);
    let colors = rgb_thumb_to_pixels(&thumb);
    db.append(ThumbnailData { path, res, colors });
    proof {
        assert(db.thumbs@.subrange(0, old(db).thumbs@.len() as int) =~= old(db).thumbs@);
        assert(db.thumbs@[db.thumbs@.len() - 1].key_matches(p, res));
    }
}

/// The candidate paths whose `(path, res)` key is absent from the database,
/// in candidate order.
pub open spec fn plan_spec(db: ThumbnailDb, paths: Seq<String>, res: u32) -> Seq<String>
    decreases paths.len(),
{
    if paths.len() == 0 {
        Seq::empty()
    } else {
        let rest = plan_spec(db, paths.drop_last(), res);
        if !db.contains_key(paths.last()@, res) {
            rest.push(paths.last())
        } else {
            rest
        }
    }
}

/// Import policy: of the discovered candidate paths, exactly those whose
/// key is missing are imported, in discovery order.
pub fn plan_import(db: &ThumbnailDb, paths: &Vec<String>, res: u32) -> (r: Vec<String>)
    ensures
        r@ == plan_spec(*db, paths@, res),
{
    let n = paths.len();
    let mut out: Vec<String> = Vec::new();
    let mut i: usize = 0;
    while i < n
        invariant
            i <= n,
            n == paths@.len(),
            out@ == plan_spec(*db, paths@.take(i as int), res),
        decreases n - i,
    {
        let p = &paths[i];
        proof {
            assert(paths@.take(i + 1).drop_last() =~= paths@.take(i as int));
            assert(paths@.take(i + 1).last() == paths@[i as int]);
        }
        if !db.contains(p, res) {
            out.push(p.clone());
        }
        i = i + 1;
    }
    proof {
        assert(paths@.take(n as int) =~= paths@);
    }
    out
}

/// Idempotence of import: when the database already holds every candidate's
/// key, the import plan is empty, so re-running the import appends no record
/// and the cache is not rewritten.
pub proof fn lemma_import_idempotent(db: ThumbnailDb, paths: Seq<String>, res: u32)
    requires
        forall|i: int| 0 <= i < paths.len() ==> db.contains_key(paths[i]@, res),
    ensures
        plan_spec(db, paths, res) == Seq::<String>::empty(),
    decreases paths.len(),
{
    if paths.len() > 0 {
        lemma_import_idempotent(db, paths.drop_last(), res);
        assert(paths.last() == paths[paths.len() - 1]);
    }
}

/// The matching phase needs at least two usable records; fewer is a fatal
/// configuration error.
pub fn check_thumb_count(db: &ThumbnailDb) -> (r: Result<(), MosaicError>)
    ensures
        r is Ok <==> db.thumbs@.len() >= 2,
        r matches Err(e) ==> e == MosaicError::NotEnoughThumbnails,
{
    if db.thumbs.len() < 2 {
        Err(MosaicError::NotEnoughThumbnails)
    } else {
        Ok(())
    }
}

} // verus!
