//! The order in which an image's pixels are produced.
//!
//! Pixel `(i, j)` has column `i`, counted from the left, and row `j`, counted
//! from the bottom. The image is produced row by row from the top row down,
//! each row from left to right.
use vstd::prelude::*;
use vstd::arithmetic::div_mod::{lemma_fundamental_div_mod, lemma_fundamental_div_mod_converse};

verus! {

/// The pixel produced at position `k` of the stream.
pub open spec fn pixel_of(k: int, width: int, height: int) -> (int, int) {
    (k % width, height - 1 - k / width)
}

/// The position in the stream at which pixel `(i, j)` is produced.
pub open spec fn position_of(i: int, j: int, width: int, height: int) -> int {
    (height - 1 - j) * width + i
}

proof fn lemma_pixel_of_in_bounds(k: int, width: int, height: int)
    requires
        width > 0,
        height > 0,
        0 <= k < width * height,
    ensures
        0 <= pixel_of(k, width, height).0 < width,
        0 <= pixel_of(k, width, height).1 < height,
        position_of(pixel_of(k, width, height).0, pixel_of(k, width, height).1, width, height) == k,
{
    lemma_fundamental_div_mod(k, width);
    let q = k / width;
    let r = k % width;
    assert(0 <= q < height) by (nonlinear_arith)
        requires
            k == width * q + r,
            0 <= r < width,
            0 <= k < width * height,
    ;
    assert(q * width == width * q) by (nonlinear_arith);
}

proof fn lemma_position_of_in_bounds(i: int, j: int, width: int, height: int)
    requires
        0 <= i < width,
        0 <= j < height,
    ensures
        0 <= position_of(i, j, width, height) < width * height,
        pixel_of(position_of(i, j, width, height), width, height) == (i, j),
{
    let row = height - 1 - j;
    assert(0 <= row * width + i < width * height) by (nonlinear_arith)
        requires
            0 <= row < height,
            0 <= i < width,
    ;
    lemma_fundamental_div_mod_converse(row * width + i, width, row, i);
}

/// The stream visits each pixel of a `width` by `height` image exactly once:
/// position and pixel are mapped onto each other one to one.
pub proof fn lemma_scan_order_is_one_to_one(width: int, height: int)
    requires
        width > 0,
        height > 0,
    ensures
        forall|k: int|
            #![trigger pixel_of(k, width, height)]
            0 <= k < width * height ==> {
                let p = pixel_of(k, width, height);
                &&& 0 <= p.0 < width
                &&& 0 <= p.1 < height
                &&& position_of(p.0, p.1, width, height) == k
            },
        forall|i: int, j: int|
            #![trigger position_of(i, j, width, height)]
            0 <= i < width && 0 <= j < height ==> {
                &&& 0 <= position_of(i, j, width, height) < width * height
                &&& pixel_of(position_of(i, j, width, height), width, height) == (i, j)
            },
{
    assert forall|k: int|
        #![trigger pixel_of(k, width, height)]
        0 <= k < width * height implies {
        let p = pixel_of(k, width, height);
        &&& 0 <= p.0 < width
        &&& 0 <= p.1 < height
        &&& position_of(p.0, p.1, width, height) == k
    } by {
        lemma_pixel_of_in_bounds(k, width, height);
    }
    assert forall|i: int, j: int|
        #![trigger position_of(i, j, width, height)]
        0 <= i < width && 0 <= j < height implies {
        &&& 0 <= position_of(i, j, width, height) < width * height
        &&& pixel_of(position_of(i, j, width, height), width, height) == (i, j)
    } by {
        lemma_position_of_in_bounds(i, j, width, height);
    }
}

/// The pixel produced at position `k` of the stream of a `width` by `height`
/// image, as `(column, row)`.
pub fn pixel_at(k: usize, width: usize, height: usize) -> (p: (usize, usize))
    requires
        width > 0,
        height > 0,
        k < width * height,
    ensures
        (p.0 as int, p.1 as int) == pixel_of(k as int, width as int, height as int),
        p.0 < width,
        p.1 < height,
{
    proof {
        lemma_pixel_of_in_bounds(k as int, width as int, height as int);
    }
    (k % width, height - 1 - k / width)
}

/// Every pixel of a `width` by `height` image, in the order in which the image
/// is produced.
pub fn scan_order(width: usize, height: usize) -> (v: Vec<(usize, usize)>)
    requires
        width * height <= usize::MAX,
    ensures
        v@.len() == width * height,
        forall|k: int|
            0 <= k < v@.len() ==> (v@[k].0 as int, v@[k].1 as int) == pixel_of(k, width as int, height as int),
{
    let mut v: Vec<(usize, usize)> = Vec::new();
    let mut rows: usize = 0;
    while rows < height
        invariant
            rows <= height,
            width * height <= usize::MAX,
            v@.len() == rows * width,
            forall|k: int|
                0 <= k < v@.len() ==> (v@[k].0 as int, v@[k].1 as int) == pixel_of(k, width as int, height as int),
        decreases height - rows,
    {
        let j: usize = height - 1 - rows;
        let mut i: usize = 0;
        while i < width
            invariant
                rows < height,
                j == height - 1 - rows,
                i <= width,
                width * height <= usize::MAX,
                v@.len() == rows * width + i,
                forall|k: int|
                    0 <= k < v@.len() ==> (v@[k].0 as int, v@[k].1 as int) == pixel_of(k, width as int, height as int),
            decreases width - i,
        {
            proof {
                lemma_position_of_in_bounds(i as int, j as int, width as int, height as int);
            }
            v.push((i, j));
            i = i + 1;
        }
        assert(rows * width + width == (rows + 1) * width) by (nonlinear_arith);
        rows = rows + 1;
    }
    assert(height * width == width * height) by (nonlinear_arith);
    v
}

} // verus!
