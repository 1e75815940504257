use vstd::prelude::*;
use crate::color::Rgb;
use crate::db::ThumbnailDb;
use crate::distance::{MAX_SIGNATURE_SAMPLES, compare_thumbs_u8, quantized_dist};
use crate::grid::{chunk_of, extract_chunk};
use crate::imaging::{get_thumb, resampled, rgb_thumb_to_pixels};
use crate::raster::{Image, ImageView};

verus! {

/// Quantized distance between a query signature and the record at index `i`.
pub open spec fn record_dist(db: ThumbnailDb, query: Seq<Rgb>, i: int) -> int {
    quantized_dist(query, db.thumbs@[i].colors@)
}

/// Linear scan for the database record closest to the query signature under
/// the quantized metric. Returns the winner's index and its score: the score
/// is the minimum over all records, and every earlier record scores strictly
/// worse, so ties keep the first record in database order.
pub fn best_match(query: &Vec<Rgb>, db: &ThumbnailDb) -> (r: (usize, i32))
    requires
        db.thumbs@.len() >= 1,
        query@.len() <= MAX_SIGNATURE_SAMPLES,
    ensures
        r.0 < db.thumbs@.len(),
        r.1 == record_dist(*db, query@, r.0 as int),
        forall|j: int| 0 <= j < db.thumbs@.len() ==> r.1 <= record_dist(*db, query@, j),
        forall|j: int| 0 <= j < r.0 ==> record_dist(*db, query@, j) > r.1,
{
    let n = db.thumbs.len();
    let first = &db.thumbs[0];
    let mut best_idx: usize = 0;
    let mut best_score: i32 = compare_thumbs_u8(query, &first.colors);
    let mut i: usize = 1;
    while i < n
        invariant
            1 <= i <= n,
            n == db.thumbs@.len(),
            query@.len() <= MAX_SIGNATURE_SAMPLES,
            best_idx < i,
            best_score == record_dist(*db, query@, best_idx as int),
            forall|j: int| 0 <= j < i ==> best_score <= record_dist(*db, query@, j),
            forall|j: int| 0 <= j < best_idx ==> record_dist(*db, query@, j) > best_score,
        decreases n - i,
    {
        let t = &db.thumbs[i];
        let score = compare_thumbs_u8(query, &t.colors);
        if score < best_score {
            best_score = score;
            best_idx = i;
        }
        i = i + 1;
    }
    (best_idx, best_score)
}

/// Matches one grid chunk: extracts the chunk's signature at the configured
/// sample resolution, then selects the minimum-distance record. Returns the
/// winning record's index and its score.
pub fn process_chunk(chunk: &Image, sampleres: u32, db: &ThumbnailDb) -> (r: (usize, i32))
    requires
        chunk.wf(),
        chunk.width >= 1,
        chunk.height >= 1,
        sampleres >= 1,
        sampleres * sampleres <= MAX_SIGNATURE_SAMPLES,
        db.thumbs@.len() >= 1,
    ensures
        r.0 < db.thumbs@.len(),
        r.1 == record_dist(*db, resampled(chunk@, sampleres), r.0 as int),
        forall|j: int|
            0 <= j < db.thumbs@.len() ==> r.1 <= record_dist(*db, resampled(chunk@, sampleres), j),
        forall|j: int| 0 <= j < r.0 ==> record_dist(*db, resampled(chunk@, sampleres), j) > r.1,
{
    let thumb = get_thumb(chunk, sampleres);
    let query = rgb_thumb_to_pixels(&thumb);
    best_match(&query, db)
}

/// For any image resampled at any resolution, the quantized distance of
/// its signature against itself is zero.
pub proof fn lemma_image_self_distance_zero(img: ImageView, res: u32)
    ensures
        quantized_dist(resampled(img, res), resampled(img, res)) == 0,
{
    crate::distance::lemma_quantized_dist_self_zero(resampled(img, res));
}

/// For any two images resampled at the same resolution with the same
/// kernel, the quantized distance is symmetric in the two images.
pub proof fn lemma_image_distance_symmetric(a: ImageView, b: ImageView, res: u32)
    ensures
        quantized_dist(resampled(a, res), resampled(b, res)) == quantized_dist(
            resampled(b, res),
            resampled(a, res),
        ),
{
    crate::distance::lemma_quantized_dist_symmetric(resampled(a, res), resampled(b, res));
}

/// One chunk's match: the grid cell, the winning record's index, and its
/// score under the quantized metric.
pub struct MatchResult {
    pub grid_x: u32,
    pub grid_y: u32,
    pub winner: usize,
    pub score: i32,
}

/// The signature a grid cell of the cropped target queries the database
/// with: the cell's pixels resampled to the sample resolution.
pub open spec fn chunk_query(img: ImageView, gx: int, gy: int, thumbsize: u32, sampleres: u32) -> Seq<Rgb> {
    resampled(chunk_of(img, gx, gy, thumbsize as int), sampleres)
}

/// What one MatchResult promises: its cell lies on the grid, its winner is
/// a database record whose score is the minimum over all records for this
/// cell's query, and every earlier record scores strictly worse.
pub open spec fn valid_result(
    db: ThumbnailDb,
    img: ImageView,
    thumbsize: u32,
    sampleres: u32,
    m: MatchResult,
) -> bool {
    let q = chunk_query(img, m.grid_x as int, m.grid_y as int, thumbsize, sampleres);
    &&& m.grid_x < img.width as int / thumbsize as int
    &&& m.grid_y < img.height as int / thumbsize as int
    &&& m.winner < db.thumbs@.len()
    &&& m.score == record_dist(db, q, m.winner as int)
    &&& forall|j: int| 0 <= j < db.thumbs@.len() ==> m.score <= record_dist(db, q, j)
    &&& forall|j: int| 0 <= j < m.winner ==> record_dist(db, q, j) > m.score
}

/// Partitions the cropped target into its grid of chunks and matches every
/// chunk against the database: one result per grid cell, row-major, each
/// cell exactly once. Completion order of the underlying searches does not
/// matter, since each cell's result is pinned independently.
pub fn match_chunks(img: &Image, thumbsize: u32, sampleres: u32, db: &ThumbnailDb) -> (r: Vec<
    MatchResult,
>)
    requires
        img.wf(),
        thumbsize >= 1,
        img.width % thumbsize == 0,
        img.height % thumbsize == 0,
        sampleres >= 1,
        sampleres * sampleres <= MAX_SIGNATURE_SAMPLES,
        db.thumbs@.len() >= 1,
    ensures
        r@.len() == (img.width as int / thumbsize as int) * (img.height as int / thumbsize as int),
        forall|k: int| 0 <= k < r@.len() ==> valid_result(*db, img@, thumbsize, sampleres, #[trigger] r@[k]),
        forall|k: int|
            0 <= k < r@.len() ==> (#[trigger] r@[k]).grid_y * (img.width as int / thumbsize as int)
                + r@[k].grid_x == k,
{
    let xc: u32 = img.width / thumbsize;
    let yc: u32 = img.height / thumbsize;
    let mut out: Vec<MatchResult> = Vec::new();
    let mut gy: u32 = 0;
    while gy < yc
        invariant
            img.wf(),
            thumbsize >= 1,
            img.width % thumbsize == 0,
            img.height % thumbsize == 0,
            sampleres >= 1,
            sampleres * sampleres <= MAX_SIGNATURE_SAMPLES,
            db.thumbs@.len() >= 1,
            xc == img.width as int / thumbsize as int,
            yc == img.height as int / thumbsize as int,
            gy <= yc,
            out@.len() == gy * xc,
            forall|k: int|
                0 <= k < out@.len() ==> valid_result(*db, img@, thumbsize, sampleres, #[trigger] out@[k]),
            forall|k: int| 0 <= k < out@.len() ==> (#[trigger] out@[k]).grid_y * xc + out@[k].grid_x == k,
        decreases yc - gy,
    {
        let mut gx: u32 = 0;
        while gx < xc
            invariant
                img.wf(),
                thumbsize >= 1,
                img.width % thumbsize == 0,
                img.height % thumbsize == 0,
                sampleres >= 1,
                sampleres * sampleres <= MAX_SIGNATURE_SAMPLES,
                db.thumbs@.len() >= 1,
                xc == img.width as int / thumbsize as int,
                yc == img.height as int / thumbsize as int,
                gy < yc,
                gx <= xc,
                out@.len() == gy * xc + gx,
                forall|k: int|
                    0 <= k < out@.len() ==> valid_result(*db, img@, thumbsize, sampleres, #[trigger] out@[k]),
                forall|k: int| 0 <= k < out@.len() ==> (#[trigger] out@[k]).grid_y * xc + out@[k].grid_x == k,
            decreases xc - gx,
        {
            let chunk = extract_chunk(img, gx, gy, thumbsize);
            let (winner, score) = process_chunk(&chunk, sampleres, db);
            let m = MatchResult { grid_x: gx, grid_y: gy, winner, score };
            proof {
                assert(chunk@ == chunk_of(img@, gx as int, gy as int, thumbsize as int));
                assert(valid_result(*db, img@, thumbsize, sampleres, m));
            }
            out.push(m);
            gx = gx + 1;
        }
        proof {
            assert((gy + 1) * xc == gy * xc + xc) by (nonlinear_arith);
        }
        gy = gy + 1;
    }
    proof {
        assert(yc * xc == xc * yc) by (nonlinear_arith);
    }
    out
}

} // verus!
