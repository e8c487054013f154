use vstd::prelude::*;

verus! {

/// Position of pixel `(x, y)` in a row-major buffer `width` pixels wide.
pub open spec fn pixel_index(width: int, x: int, y: int) -> int {
    y * width + x
}

/// A width by height image stored row by row, top row first.
pub struct Framebuffer<P> {
    pub width: u32,
    pub height: u32,
    pub pixels: Vec<P>,
}

impl<P: Copy> Framebuffer<P> {
    /// One pixel value for each cell of the grid.
    pub open spec fn wf(&self) -> bool {
        self.pixels@.len() == self.width as int * self.height as int
    }

    /// The pixel at column `x` of row `y`.
    pub open spec fn pixel(&self, x: int, y: int) -> P {
        self.pixels@[pixel_index(self.width as int, x, y)]
    }

    /// An image of the given size with every pixel set to `fill`.
    pub fn new(width: u32, height: u32, fill: P) -> (r: Framebuffer<P>)
        requires
            width as int * height as int <= u32::MAX,
        ensures
            r.wf(),
            r.width == width,
            r.height == height,
            forall|i: int| 0 <= i < r.pixels@.len() ==> r.pixels@[i] == fill,
    {
        let n = width * height;
        let mut pixels: Vec<P> = Vec::new();
        let mut i: u32 = 0;
        while i < n
            invariant
                i <= n,
                pixels@.len() == i,
                forall|k: int| 0 <= k < i ==> pixels@[k] == fill,
            decreases n - i,
        {
            pixels.push(fill);
            i = i + 1;
        }
        Framebuffer { width, height, pixels }
    }

    /// Writes one pixel; every other pixel keeps its value.
    pub fn set(&mut self, x: u32, y: u32, color: P)
        requires
            old(self).wf(),
            x < old(self).width,
            y < old(self).height,
        ensures
            final(self).wf(),
            final(self).width == old(self).width,
            final(self).height == old(self).height,
            final(self).pixels@ == old(self).pixels@.update(
                pixel_index(old(self).width as int, x as int, y as int),
                color,
            ),
    {
        let i = self.index_of(x, y);
        self.pixels.set(i, color);
    }

    /// Reads one pixel.
    pub fn get(&self, x: u32, y: u32) -> (r: P)
        requires
            self.wf(),
            x < self.width,
            y < self.height,
        ensures
            r == self.pixel(x as int, y as int),
    {
        let i = self.index_of(x, y);
        self.pixels[i]
    }

    fn index_of(&self, x: u32, y: u32) -> (r: usize)
        requires
            self.wf(),
            x < self.width,
            y < self.height,
        ensures
            r == pixel_index(self.width as int, x as int, y as int),
            r < self.pixels@.len(),
    {
        // the buffer's length is a usize, which bounds every index into it
        let len = self.pixels.len();
        let w = self.width as usize;
        let h = self.height as usize;
        assert(y as int * w + x < h * w) by (nonlinear_arith)
            requires
                x < w,
                y < h,
        ;
        assert(self.pixels@.len() == h * w) by (nonlinear_arith)
            requires
                self.pixels@.len() == self.width as int * self.height as int,
                w == self.width,
                h == self.height,
        ;
        assert((y as usize) * w == y as int * w);
        assert(y as int * w + x < len);
        (y as usize) * w + (x as usize)
    }
}

/// Fills an image by asking `shade` for each pixel. Rows are visited from
/// the bottom of the image upwards and pixels left to right; `shade(x, y)`
/// receives `y` counted upwards from the bottom row, and its value lands in
/// row `height - 1 - y` counted from the top.
pub fn render_pixels<P: Copy, F: Fn(u32, u32) -> P>(
    width: u32,
    height: u32,
    fill: P,
    shade: &F,
) -> (r: Framebuffer<P>)
    requires
        width as int * height as int <= u32::MAX,
        forall|x: u32, y: u32| x < width && y < height ==> shade.requires((x, y)),
    ensures
        r.wf(),
        r.width == width,
        r.height == height,
        forall|x: u32, y: u32|
            x < width && y < height ==> shade.ensures(
                (x, y),
                #[trigger] r.pixel(x as int, height - 1 - y),
            ),
{
    let mut fb = Framebuffer::new(width, height, fill);
    let mut y: u32 = height;
    while y > 0
        invariant
            forall|xq: u32, yq: u32| xq < width && yq < height ==> shade.requires((xq, yq)),
            y <= height,
            fb.wf(),
            fb.width == width,
            fb.height == height,
            forall|x: u32, yy: u32| x < width && y <= yy < height ==> shade.ensures(
                (x, yy),
                #[trigger] fb.pixel(x as int, height - 1 - yy),
            ),
        decreases y,
    {
        y = y - 1;
        let mut x: u32 = 0;
        while x < width
            invariant
                forall|xq: u32, yq: u32| xq < width && yq < height ==> shade.requires((xq, yq)),
                y < height,
                x <= width,
                fb.wf(),
                fb.width == width,
                fb.height == height,
                forall|xx: u32, yy: u32| xx < width && y < yy < height ==> shade.ensures(
                    (xx, yy),
                    #[trigger] fb.pixel(xx as int, height - 1 - yy),
                ),
                forall|xx: u32| xx < x ==> shade.ensures(
                    (xx, y),
                    #[trigger] fb.pixel(xx as int, height - 1 - y),
                ),
            decreases width - x,
        {
            let c = shade(x, y);
            let ghost before = fb;
            let row = height - 1 - y;
            fb.set(x, row, c);
            proof {
                lemma_row_major_distinct(width as int, height as int, x as int, row as int);
                assert forall|xx: u32, yy: u32| xx < width && yy < height && (xx != x || yy != row)
                    implies #[trigger] fb.pixel(xx as int, yy as int) == before.pixel(
                    xx as int,
                    yy as int,
                ) by {
                    assert(pixel_index(width as int, xx as int, yy as int) != pixel_index(
                        width as int,
                        x as int,
                        row as int,
                    ));
                    assert(0 <= pixel_index(width as int, xx as int, yy as int) < width * height)
                        by (nonlinear_arith)
                        requires
                            xx < width,
                            yy < height,
                    ;
                }
                assert(fb.pixel(x as int, row as int) == c);
            }
            x = x + 1;
        }
    }
    fb
}

/// Distinct cells of a row-major grid have distinct positions.
proof fn lemma_row_major_distinct(width: int, height: int, x: int, y: int)
    requires
        0 <= x < width,
        0 <= y < height,
    ensures
        forall|x2: int, y2: int|
            0 <= x2 < width && 0 <= y2 < height && (x2 != x || y2 != y) ==> pixel_index(width, x2, y2)
                != pixel_index(width, x, y),
        0 <= pixel_index(width, x, y) < width * height,
{
    assert forall|x2: int, y2: int|
        0 <= x2 < width && 0 <= y2 < height && (x2 != x || y2 != y) implies pixel_index(width, x2, y2)
        != pixel_index(width, x, y) by {
        if y2 == y {
        } else if y2 < y {
            assert(y2 * width + x2 < y * width) by (nonlinear_arith)
                requires
                    y2 < y,
                    0 <= x2 < width,
            ;
        } else {
            assert(y * width + x < y2 * width) by (nonlinear_arith)
                requires
                    y < y2,
                    0 <= x < width,
            ;
        }
    }
    assert(0 <= y * width + x < width * height) by (nonlinear_arith)
        requires
            0 <= x < width,
            0 <= y < height,
    ;
}

} // verus!
