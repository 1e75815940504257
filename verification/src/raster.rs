use vstd::prelude::*;
use vstd::pervasive::VecAdditionalExecFns;
use crate::color::Rgb;

verus! {

/// Index of the pixel at column `x` of row `y` in a row-major buffer of
/// row length `w`.
pub open spec fn flat_idx(x: int, y: int, w: int) -> int {
    y * w + x
}

pub proof fn lemma_flat_idx_bounds(x: int, y: int, w: int, h: int)
    requires
        0 <= x < w,
        0 <= y < h,
    ensures
        0 <= flat_idx(x, y, w) < w * h,
{
    assert(0 <= y * w + x < w * h) by (nonlinear_arith)
        requires
            0 <= x < w,
            0 <= y < h,
    ;
}

pub proof fn lemma_flat_idx_inj(x1: int, y1: int, x2: int, y2: int, w: int)
    requires
        0 <= x1 < w,
        0 <= x2 < w,
        x1 != x2 || y1 != y2,
    ensures
        flat_idx(x1, y1, w) != flat_idx(x2, y2, w),
{
    assert(y1 * w + x1 != y2 * w + x2) by (nonlinear_arith)
        requires
            0 <= x1 < w,
            0 <= x2 < w,
            x1 != x2 || y1 != y2,
    ;
}

/// A raster image: `width * height` pixels stored row-major.
pub struct Image {
    pub width: u32,
    pub height: u32,
    pub pixels: Vec<Rgb>,
}

/// Mathematical view of a raster image.
pub ghost struct ImageView {
    pub width: nat,
    pub height: nat,
    pub pixels: Seq<Rgb>,
}

impl View for Image {
    type V = ImageView;

    open spec fn view(&self) -> ImageView {
        ImageView { width: self.width as nat, height: self.height as nat, pixels: self.pixels@ }
    }
}

impl Image {
    /// Well-formed: exactly one pixel per grid cell.
    pub open spec fn wf(self) -> bool {
        self.pixels@.len() == self.width * self.height
    }

    /// The pixel at column `x` of row `y`.
    pub open spec fn pixel_at(self, x: int, y: int) -> Rgb {
        self.pixels@[flat_idx(x, y, self.width as int)]
    }

    /// A canvas of the given size, filled with black pixels.
    pub fn new_canvas(width: u32, height: u32) -> (r: Image)
        requires
            width * height <= usize::MAX,
        ensures
            r.wf(),
            r.width == width,
            r.height == height,
            forall|i: int| 0 <= i < r.pixels@.len() ==> r.pixels@[i] == (Rgb { r: 0, g: 0, b: 0 }),
    {
        let n: usize = (width as usize) * (height as usize);
        let mut pixels: Vec<Rgb> = Vec::new();
        let mut i: usize = 0;
        while i < n
            invariant
                i <= n,
                pixels@.len() == i,
                forall|j: int| 0 <= j < i ==> pixels@[j] == (Rgb { r: 0, g: 0, b: 0 }),
            decreases n - i,
        {
            pixels.push(Rgb { r: 0, g: 0, b: 0 });
            i = i + 1;
        }
        Image { width, height, pixels }
    }
}

/// The rectangular sub-image of `img` with top-left corner `(ox, oy)`,
/// width `w` and height `h`.
pub fn crop_region(img: &Image, ox: u32, oy: u32, w: u32, h: u32) -> (r: Image)
    requires
        img.wf(),
        ox + w <= img.width,
        oy + h <= img.height,
    ensures
        r.wf(),
        r.width == w,
        r.height == h,
        forall|x: int, y: int|
            0 <= x < w && 0 <= y < h ==> r.pixel_at(x, y) == img.pixel_at(ox + x, oy + y),
{
    let total: usize = img.pixels.len();
    assert(img.width * img.height <= usize::MAX);
    let mut pixels: Vec<Rgb> = Vec::new();
    let mut y: u32 = 0;
    while y < h
        invariant
            img.wf(),
            img.width * img.height <= usize::MAX,
            ox + w <= img.width,
            oy + h <= img.height,
            y <= h,
            pixels@.len() == y * w,
            forall|xx: int, yy: int|
                0 <= xx < w && 0 <= yy < y ==> pixels@[flat_idx(xx, yy, w as int)]
                    == img.pixel_at(ox + xx, oy + yy),
        decreases h - y,
    {
        let mut x: u32 = 0;
        while x < w
            invariant
                img.wf(),
                img.width * img.height <= usize::MAX,
                ox + w <= img.width,
                oy + h <= img.height,
                y < h,
                x <= w,
                pixels@.len() == y * w + x,
                forall|xx: int, yy: int|
                    0 <= xx < w && 0 <= yy < y ==> pixels@[flat_idx(xx, yy, w as int)]
                        == img.pixel_at(ox + xx, oy + yy),
                forall|xx: int|
                    0 <= xx < x ==> pixels@[flat_idx(xx, y as int, w as int)]
                        == img.pixel_at(ox + xx, oy + y),
            decreases w - x,
        {
            let row: u32 = oy + y;
            let col: u32 = ox + x;
            proof {
                lemma_flat_idx_bounds(col as int, row as int, img.width as int, img.height as int);
            }
            let idx: usize = (row as usize) * (img.width as usize) + (col as usize);
            let px = img.pixels[idx];
            pixels.push(px);
            assert(pixels@[flat_idx(x as int, y as int, w as int)] == img.pixel_at(
                ox + x,
                oy + y,
            ));
            proof {
                assert forall|xx: int, yy: int|
                    0 <= xx < w && 0 <= yy < y implies pixels@[flat_idx(xx, yy, w as int)]
                    == img.pixel_at(ox + xx, oy + yy) by {
                    lemma_flat_idx_bounds(xx, yy, w as int, y as int);
                }
            }
            x = x + 1;
        }
        proof {
            assert((y + 1) * w == y * w + w) by (nonlinear_arith);
            assert forall|xx: int, yy: int|
                0 <= xx < w && 0 <= yy < y + 1 implies pixels@[flat_idx(xx, yy, w as int)]
                == img.pixel_at(ox + xx, oy + yy) by {
                lemma_flat_idx_bounds(xx, yy, w as int, y + 1);
            }
        }
        y = y + 1;
    }
    proof {
        assert(h * w == w * h) by (nonlinear_arith);
    }
    Image { width: w, height: h, pixels }
}

/// Writes `tile` into `canvas` with its top-left corner at `(ox, oy)`,
/// fully replacing the destination pixels and leaving every pixel outside
/// the tile's rectangle unchanged.
pub fn overlay_tile(canvas: &mut Image, tile: &Image, ox: u32, oy: u32)
    requires
        old(canvas).wf(),
        tile.wf(),
        ox + tile.width <= old(canvas).width,
        oy + tile.height <= old(canvas).height,
    ensures
        final(canvas).wf(),
        final(canvas).width == old(canvas).width,
        final(canvas).height == old(canvas).height,
        forall|x: int, y: int|
            0 <= x < tile.width && 0 <= y < tile.height ==> final(canvas).pixel_at(
                ox + x,
                oy + y,
            ) == tile.pixel_at(x, y),
        forall|x: int, y: int|
            0 <= x < old(canvas).width && 0 <= y < old(canvas).height && !(ox <= x < ox
                + tile.width && oy <= y < oy + tile.height) ==> final(canvas).pixel_at(x, y)
                == old(canvas).pixel_at(x, y),
{
    let cw: u32 = canvas.width;
    let ch: u32 = canvas.height;
    let tw: u32 = tile.width;
    let th: u32 = tile.height;
    let canvas_len: usize = canvas.pixels.len();
    let tile_len: usize = tile.pixels.len();
    assert(cw * ch <= usize::MAX && tw * th <= usize::MAX);
    let mut ty: u32 = 0;
    while ty < th
        invariant
            canvas.wf(),
            tile.wf(),
            cw * ch <= usize::MAX,
            tw * th <= usize::MAX,
            canvas.width == cw,
            canvas.height == ch,
            tile.width == tw,
            tile.height == th,
            ox + tw <= cw,
            oy + th <= ch,
            ty <= th,
            old(canvas).wf(),
            old(canvas).width == cw,
            old(canvas).height == ch,
            forall|x: int, y: int|
                0 <= x < tw && 0 <= y < ty ==> canvas.pixel_at(ox + x, oy + y) == tile.pixel_at(
                    x,
                    y,
                ),
            forall|x: int, y: int|
                0 <= x < cw && 0 <= y < ch && !(ox <= x < ox + tw && oy <= y < oy + ty)
                    ==> canvas.pixel_at(x, y) == old(canvas).pixel_at(x, y),
        decreases th - ty,
    {
        let mut tx: u32 = 0;
        while tx < tw
            invariant
                canvas.wf(),
                tile.wf(),
                cw * ch <= usize::MAX,
                tw * th <= usize::MAX,
                canvas.width == cw,
                canvas.height == ch,
                tile.width == tw,
                tile.height == th,
                ox + tw <= cw,
                oy + th <= ch,
                ty < th,
                tx <= tw,
                old(canvas).wf(),
                old(canvas).width == cw,
                old(canvas).height == ch,
                forall|x: int, y: int|
                    0 <= x < tw && 0 <= y < ty ==> canvas.pixel_at(ox + x, oy + y)
                        == tile.pixel_at(x, y),
                forall|x: int|
                    0 <= x < tx ==> canvas.pixel_at(ox + x, oy + ty) == tile.pixel_at(
                        x,
                        ty as int,
                    ),
                forall|x: int, y: int|
                    0 <= x < cw && 0 <= y < ch && !(ox <= x < ox + tw && oy <= y < oy + ty) && !(ox
                        <= x < ox + tx && y == oy + ty) ==> canvas.pixel_at(x, y) == old(
                        canvas,
                    ).pixel_at(x, y),
            decreases tw - tx,
        {
            let row: u32 = oy + ty;
            let col: u32 = ox + tx;
            proof {
                lemma_flat_idx_bounds(col as int, row as int, cw as int, ch as int);
                lemma_flat_idx_bounds(tx as int, ty as int, tw as int, th as int);
            }
            let src_idx: usize = (ty as usize) * (tw as usize) + (tx as usize);
            let dst_idx: usize = (row as usize) * (cw as usize) + (col as usize);
            let ghost prev = *canvas;
            let px = tile.pixels[src_idx];
            canvas.pixels.set(dst_idx, px);
            proof {
                assert forall|x: int, y: int|
                    0 <= x < cw && 0 <= y < ch && (x != col || y != row) implies canvas.pixel_at(
                    x,
                    y,
                ) == prev.pixel_at(x, y) by {
                    lemma_flat_idx_inj(x, y, col as int, row as int, cw as int);
                    lemma_flat_idx_bounds(x, y, cw as int, ch as int);
                }
                assert(canvas.pixel_at(col as int, row as int) == tile.pixel_at(
                    tx as int,
                    ty as int,
                ));
            }
            tx = tx + 1;
        }
        ty = ty + 1;
    }
}

} // verus!
