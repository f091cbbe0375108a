//! The render loop: which sample position fills which cell of the image.

use crate::image::Image;
use vstd::prelude::*;

verus! {

/// `rows` is a rendering by `shade`: `height` rows of `width` pixels, where
/// the pixel in row `r` and column `c` is a colour that `shade` gives for
/// column `c` of sample row `height - 1 - r`.
pub open spec fn is_rendering<P, S: Fn(usize, usize) -> P>(
    rows: Seq<Seq<P>>,
    width: usize,
    height: usize,
    shade: S,
) -> bool {
    &&& rows.len() == height
    &&& forall|r: int| 0 <= r < height ==> (#[trigger] rows[r]).len() == width
    &&& forall|r: int, c: int|
        0 <= r < height && 0 <= c < width ==> call_ensures(
            shade,
            (c as usize, (height - 1 - r) as usize),
            #[trigger] rows[r][c],
        )
}

/// Rendering is reproducible: where `shade` gives one colour for each sample
/// position, as it does when it draws nothing at random, any two renderings
/// by it are the same image.
pub proof fn lemma_rendering_is_reproducible<P, S: Fn(usize, usize) -> P>(
    a: Seq<Seq<P>>,
    b: Seq<Seq<P>>,
    width: usize,
    height: usize,
    shade: S,
)
    requires
        forall|x: usize, y: usize, p: P, q: P|
            call_ensures(shade, (x, y), p) && call_ensures(shade, (x, y), q) ==> p == q,
        is_rendering(a, width, height, shade),
        is_rendering(b, width, height, shade),
    ensures
        a == b,
{
    assert forall|r: int| 0 <= r < height implies #[trigger] a[r] == b[r] by {
        assert forall|c: int| 0 <= c < width implies a[r][c] == b[r][c] by {
            let x = c as usize;
            let y = (height - 1 - r) as usize;
            assert(call_ensures(shade, (x, y), a[r][c]));
            assert(call_ensures(shade, (x, y), b[r][c]));
        }
        assert(a[r] =~= b[r]);
    }
    assert(a =~= b);
}

/// Renders an image of the given size.
///
/// `shade(x, y)` gives the colour seen through column `x` of sample row `y`,
/// where sample rows are counted upwards from the bottom of the viewport.
/// Row 0 of the image is its top, so the image holds the sample rows in
/// reverse: the sample row of image row `r` is `height - 1 - r`.
///
/// The sample rows are rendered from the bottom up, each from left to right,
/// and after each one `callback` is called with the number of rows done.
pub fn render<P, S, C>(width: usize, height: usize, shade: S, callback: C) -> (image: Image<P>)
    where P: Copy + Default, S: Fn(usize, usize) -> P, C: Fn(usize)
    requires
        0 < width,
        0 < height,
        width * height <= usize::MAX,
        forall|x: usize, y: usize| x < width && y < height ==> call_requires(shade, (x, y)),
        forall|n: usize| 1 <= n <= height ==> call_requires(callback, (n,)),
    ensures
        image.spec_width() == width,
        image.spec_height() == height,
        is_rendering(image@, width, height, shade),
{
    let mut image: Image<P> = Image::new(width, height);
    let mut y: usize = 0;
    while y < height
        invariant
            y <= height,
            image.spec_width() == width,
            image.spec_height() == height,
            image@.len() == height,
            forall|r: int| 0 <= r < height ==> (#[trigger] image@[r]).len() == width,
            forall|x: usize, y: usize| x < width && y < height ==> call_requires(shade, (x, y)),
            forall|n: usize| 1 <= n <= height ==> call_requires(callback, (n,)),
            forall|r: int, c: int|
                height - y <= r < height && 0 <= c < width ==> call_ensures(
                    shade,
                    (c as usize, (height - 1 - r) as usize),
                    #[trigger] image@[r][c],
                ),
        decreases height - y,
    {
        let row: usize = height - 1 - y;
        let mut x: usize = 0;
        while x < width
            invariant
                x <= width,
                y < height,
                row == height - 1 - y,
                image.spec_width() == width,
                image.spec_height() == height,
                image@.len() == height,
                forall|r: int| 0 <= r < height ==> (#[trigger] image@[r]).len() == width,
                forall|x: usize, y: usize| x < width && y < height ==> call_requires(shade, (x, y)),
                forall|r: int, c: int|
                    height - y <= r < height && 0 <= c < width ==> call_ensures(
                        shade,
                        (c as usize, (height - 1 - r) as usize),
                        #[trigger] image@[r][c],
                    ),
                forall|c: int|
                    0 <= c < x ==> call_ensures(shade, (c as usize, y), #[trigger] image@[row as int][c]),
            decreases width - x,
        {
            let pixel = shade(x, y);
            image.set(row, x, pixel);
            proof {
                image.lemma_shape();
            }
            x = x + 1;
        }
        y = y + 1;
        callback(y);
    }
    image
}

} // verus!
