use vstd::prelude::*;
use crate::raster::{Image, ImageView, crop_region, flat_idx};
use crate::errors::MosaicError;

verus! {

/// The square sub-image of grid cell `(gx, gy)` of a grid-aligned image,
/// as a value: row-major pixels of the cell's rectangle.
pub open spec fn chunk_of(img: ImageView, gx: int, gy: int, size: int) -> ImageView {
    ImageView {
        width: size as nat,
        height: size as nat,
        pixels: Seq::new(
            (size * size) as nat,
            |i: int|
                img.pixels[flat_idx(gx * size + i % size, gy * size + i / size, img.width as int)],
        ),
    }
}

/// Largest multiple of `s` that is at most `v`.
pub open spec fn crop_len(v: int, s: int) -> int {
    v - v % s
}

/// Dimensions of the centered crop: the largest multiples of `thumbsize`
/// that fit inside the target image.
pub fn crop_dims(width: u32, height: u32, thumbsize: u32) -> (r: (u32, u32))
    requires
        thumbsize >= 1,
    ensures
        r.0 == crop_len(width as int, thumbsize as int),
        r.1 == crop_len(height as int, thumbsize as int),
        r.0 % thumbsize == 0,
        r.0 <= width < r.0 + thumbsize,
        r.1 % thumbsize == 0,
        r.1 <= height < r.1 + thumbsize,
{
    proof {
        let w = width as int;
        let h = height as int;
        let s = thumbsize as int;
        assert(w % s <= w) by (nonlinear_arith)
            requires
                s >= 1,
                w >= 0,
        ;
        assert((w - w % s) % s == 0) by (nonlinear_arith)
            requires
                s >= 1,
                w >= 0,
        ;
        assert(h % s <= h) by (nonlinear_arith)
            requires
                s >= 1,
                h >= 0,
        ;
        assert((h - h % s) % s == 0) by (nonlinear_arith)
            requires
                s >= 1,
                h >= 0,
        ;
    }
    let cw = width - width % thumbsize;
    let ch = height - height % thumbsize;
    (cw, ch)
}

/// Offset of the centered crop inside the original image: half the trimmed
/// pixels on each axis, rounded down.
pub fn crop_offsets(width: u32, height: u32, cw: u32, ch: u32) -> (r: (u32, u32))
    requires
        cw <= width,
        ch <= height,
    ensures
        r.0 == (width - cw) as int / 2,
        r.1 == (height - ch) as int / 2,
        r.0 + cw <= width,
        r.1 + ch <= height,
{
    proof {
        let dw = (width - cw) as int;
        let dh = (height - ch) as int;
        assert(dw / 2 <= dw && dh / 2 <= dh) by (nonlinear_arith)
            requires
                dw >= 0,
                dh >= 0,
        ;
    }
    ((width - cw) / 2, (height - ch) / 2)
}

/// Number of grid cells along each axis of the cropped image.
pub fn grid_dims(cw: u32, ch: u32, thumbsize: u32) -> (r: (u32, u32))
    requires
        thumbsize >= 1,
    ensures
        r.0 == cw as int / thumbsize as int,
        r.1 == ch as int / thumbsize as int,
{
    (cw / thumbsize, ch / thumbsize)
}

/// Center-crops the target to the largest grid-aligned size. Fails with a
/// configuration error exactly when the chunk size exceeds the image's
/// width or height.
pub fn crop_centered(img: &Image, thumbsize: u32) -> (r: Result<Image, MosaicError>)
    requires
        img.wf(),
        thumbsize >= 1,
    ensures
        r is Ok <==> (img.width >= thumbsize && img.height >= thumbsize),
        r matches Err(e) ==> e == MosaicError::ThumbsizeTooLarge,
        r matches Ok(c) ==> {
            &&& c.wf()
            &&& c.width == crop_len(img.width as int, thumbsize as int)
            &&& c.height == crop_len(img.height as int, thumbsize as int)
            &&& forall|x: int, y: int|
                0 <= x < c.width && 0 <= y < c.height ==> c.pixel_at(x, y) == img.pixel_at(
                    (img.width - c.width) as int / 2 + x,
                    (img.height - c.height) as int / 2 + y,
                )
        },
{
    let (cw, ch) = crop_dims(img.width, img.height, thumbsize);
    proof {
        let c0 = cw as int;
        let c1 = ch as int;
        let s = thumbsize as int;
        assert((c0 < s ==> c0 == 0) && (c1 < s ==> c1 == 0)) by (nonlinear_arith)
            requires
                c0 % s == 0,
                c1 % s == 0,
                s >= 1,
                0 <= c0,
                0 <= c1,
        ;
    }
    if cw == 0 || ch == 0 {
        return Err(MosaicError::ThumbsizeTooLarge);
    }
    let (ox, oy) = crop_offsets(img.width, img.height, cw, ch);
    Ok(crop_region(img, ox, oy, cw, ch))
}

/// The square sub-image of grid cell `(gx, gy)`.
pub fn extract_chunk(img: &Image, gx: u32, gy: u32, size: u32) -> (r: Image)
    requires
        img.wf(),
        size >= 1,
        img.width % size == 0,
        img.height % size == 0,
        gx < img.width as int / size as int,
        gy < img.height as int / size as int,
    ensures
        r.wf(),
        r.width == size,
        r.height == size,
        forall|x: int, y: int|
            0 <= x < size && 0 <= y < size ==> r.pixel_at(x, y) == img.pixel_at(
                gx * size + x,
                gy * size + y,
            ),
        r@ == chunk_of(img@, gx as int, gy as int, size as int),
{
    proof {
        let w = img.width as int;
        let h = img.height as int;
        let s = size as int;
        let x = gx as int;
        let y = gy as int;
        assert(0 <= x * s && x * s + s <= w && 0 <= y * s && y * s + s <= h)
            by (nonlinear_arith)
            requires
                s >= 1,
                w % s == 0,
                h % s == 0,
                0 <= x < w / s,
                0 <= y < h / s,
        ;
    }
    let ox: u32 = gx * size;
    let oy: u32 = gy * size;
    let c = crop_region(img, ox, oy, size, size);
    proof {
        let s = size as int;
        let ch = chunk_of(img@, gx as int, gy as int, s);
        assert forall|i: int| 0 <= i < s * s implies c.pixels@[i] == ch.pixels[i] by {
            let x = i % s;
            let y = i / s;
            vstd::arithmetic::div_mod::lemma_fundamental_div_mod(i, s);
            vstd::arithmetic::div_mod::lemma_mod_division_less_than_divisor(i, s);
            vstd::arithmetic::div_mod::lemma_div_pos_is_pos(i, s);
            assert(y < s) by (nonlinear_arith)
                requires
                    s >= 1,
                    0 <= i < s * s,
                    i == s * y + x,
                    0 <= x,
            ;
            assert(y * s + x == i) by (nonlinear_arith)
                requires
                    i == s * y + x,
            ;
            assert(c.pixel_at(x, y) == img.pixel_at(gx * s + x, gy * s + y));
        }
        assert(c.pixels@.len() == s * s);
        assert(c.pixels@ =~= ch.pixels);
        assert(c@ == ch);
    }
    c
}

} // verus!
