//! 32-bit RGBA pixel buffer: `width * height` pixels, four bytes each, row-major.

use vstd::prelude::*;
use crate::color::Rgba8;

verus! {

/// The pixel stored at flat index `i` of an RGBA8 byte sequence.
pub open spec fn pixel_at(data: Seq<u8>, i: int) -> Rgba8 {
    Rgba8 { r: data[4 * i], g: data[4 * i + 1], b: data[4 * i + 2], a: data[4 * i + 3] }
}

/// The byte sequence with pixel `i` replaced by `c`.
pub open spec fn write_pixel(data: Seq<u8>, i: int, c: Rgba8) -> Seq<u8> {
    data.update(4 * i, c.r).update(4 * i + 1, c.g).update(4 * i + 2, c.b).update(4 * i + 3, c.a)
}

/// Row-major pixel coordinates are distinct flat indices inside the image.
pub proof fn lemma_index_bounds(x: int, y: int, w: int, h: int)
    requires
        0 <= x < w,
        0 <= y < h,
    ensures
        0 <= y * w + x < w * h,
        4 * (y * w + x) + 3 < 4 * (w * h),
{
    assert(y * w + x < w * h) by (nonlinear_arith)
        requires 0 <= x < w, 0 <= y < h;
    assert(0 <= y * w) by (nonlinear_arith)
        requires 0 <= y, 0 <= w;
}

/// Distinct coordinates inside a row of width `w` have distinct flat indices.
pub proof fn lemma_index_injective(x1: int, y1: int, x2: int, y2: int, w: int)
    requires
        0 <= x1 < w,
        0 <= x2 < w,
        0 <= y1,
        0 <= y2,
        y1 * w + x1 == y2 * w + x2,
    ensures
        x1 == x2,
        y1 == y2,
{
    if y1 < y2 {
        assert(y1 * w + w <= y2 * w) by (nonlinear_arith)
            requires y1 < y2, 0 <= w;
    } else if y2 < y1 {
        assert(y2 * w + w <= y1 * w) by (nonlinear_arith)
            requires y2 < y1, 0 <= w;
    }
}

/// An image of `width * height` RGBA8 pixels stored row by row.
#[derive(Debug)]
pub struct PixelBuffer {
    width: u32,
    height: u32,
    data: Vec<u8>,
}

impl Clone for PixelBuffer {
    /// An identical, independent copy.
    fn clone(&self) -> (res: Self)
        ensures
            res@ == self@,
    {
        let data = self.data.clone();
        proof {
            assert(data@ =~= self.data@);
        }
        PixelBuffer { width: self.width, height: self.height, data }
    }
}

/// `new` is `old` put on a canvas of `w * h`: the overlap keeps its pixels, the rest is `bg`;
/// same dimensions keep the image as it was.
pub open spec fn canvas_resized(old: Image, new: Image, w: nat, h: nat, bg: Rgba8) -> bool {
    &&& new.wf()
    &&& new.width == w
    &&& new.height == h
    &&& (old.width == w && old.height == h ==> new == old)
    &&& forall|x: int, y: int|
        new.in_bounds(x, y) ==> #[trigger] new.px(x, y) == (if old.in_bounds(x, y) {
            old.px(x, y)
        } else {
            bg
        })
}

/// What a pixel buffer holds: its dimensions and its interleaved RGBA8 bytes.
pub struct Image {
    pub width: nat,
    pub height: nat,
    pub bytes: Seq<u8>,
}

impl Image {
    /// The byte length matches the dimensions, which fit the buffer's `u32` arithmetic.
    pub open spec fn wf(self) -> bool {
        &&& self.width * self.height * 4 <= u32::MAX
        &&& self.width <= u32::MAX
        &&& self.height <= u32::MAX
        &&& self.bytes.len() == self.width * self.height * 4
    }

    /// `(x, y)` lies inside the image.
    pub open spec fn in_bounds(self, x: int, y: int) -> bool {
        0 <= x < self.width && 0 <= y < self.height
    }

    /// The pixel at `(x, y)`.
    pub open spec fn px(self, x: int, y: int) -> Rgba8 {
        pixel_at(self.bytes, y * self.width + x)
    }
}

impl View for PixelBuffer {
    type V = Image;

    closed spec fn view(&self) -> Image {
        Image { width: self.width as nat, height: self.height as nat, bytes: self.data@ }
    }
}

impl PixelBuffer {
    pub open spec fn spec_width(&self) -> nat {
        self@.width
    }

    pub open spec fn spec_height(&self) -> nat {
        self@.height
    }

    /// The interleaved RGBA8 bytes.
    pub open spec fn bytes(&self) -> Seq<u8> {
        self@.bytes
    }

    /// The byte length matches the dimensions.
    pub open spec fn wf(&self) -> bool {
        self@.wf()
    }

    /// `(x, y)` lies inside the image.
    pub open spec fn in_bounds(&self, x: int, y: int) -> bool {
        self@.in_bounds(x, y)
    }

    /// The pixel at `(x, y)`.
    pub open spec fn px(&self, x: int, y: int) -> Rgba8 {
        self@.px(x, y)
    }

    /// A buffer of `width * height` transparent-black pixels.
    pub fn new(width: u32, height: u32) -> (buf: PixelBuffer)
        requires
            width * height * 4 <= u32::MAX,
        ensures
            buf.wf(),
            buf.spec_width() == width,
            buf.spec_height() == height,
            forall|i: int| 0 <= i < buf.bytes().len() ==> #[trigger] buf.bytes()[i] == 0,
    {
        let n: u32 = width * height * 4;
        let data: Vec<u8> = vec![0u8; n as usize];
        PixelBuffer { width, height, data }
    }

    pub fn width(&self) -> (w: u32)
        ensures
            w == self.spec_width(),
    {
        self.width
    }

    pub fn height(&self) -> (h: u32)
        ensures
            h == self.spec_height(),
    {
        self.height
    }

    /// The pixel at `(x, y)`, or transparent black outside the image.
    pub fn get_pixel(&self, x: u32, y: u32) -> (c: Rgba8)
        requires
            self.wf(),
        ensures
            self.in_bounds(x as int, y as int) ==> c == self.px(x as int, y as int),
            !self.in_bounds(x as int, y as int) ==> c == (Rgba8 { r: 0, g: 0, b: 0, a: 0 }),
    {
        if x >= self.width || y >= self.height {
            return Rgba8::transparent();
        }
        proof {
            lemma_index_bounds(x as int, y as int, self.width as int, self.height as int);
        }
        let idx: usize = (y * self.width + x) as usize * 4;
        Rgba8 { r: self.data[idx], g: self.data[idx + 1], b: self.data[idx + 2], a: self.data[idx + 3] }
    }

    /// Writes `c` at `(x, y)`; does nothing outside the image.
    pub fn set_pixel(&mut self, x: u32, y: u32, c: Rgba8)
        requires
            old(self).wf(),
        ensures
            final(self).wf(),
            final(self).spec_width() == old(self).spec_width(),
            final(self).spec_height() == old(self).spec_height(),
            old(self).in_bounds(x as int, y as int) ==> final(self).bytes() == write_pixel(
                old(self).bytes(),
                y * old(self).spec_width() + x,
                c,
            ),
            !old(self).in_bounds(x as int, y as int) ==> final(self).bytes() == old(self).bytes(),
            old(self).in_bounds(x as int, y as int) ==> final(self).px(x as int, y as int) == c,
            forall|x2: int, y2: int|
                old(self).in_bounds(x2, y2) && !(x2 == x && y2 == y) ==> #[trigger] final(self).px(x2, y2)
                    == old(self).px(x2, y2),
    {
        if x >= self.width || y >= self.height {
            return;
        }
        let ghost before = self.data@;
        proof {
            lemma_index_bounds(x as int, y as int, self.width as int, self.height as int);
        }
        let idx: usize = (y * self.width + x) as usize * 4;
        self.data.set(idx, c.r);
        self.data.set(idx + 1, c.g);
        self.data.set(idx + 2, c.b);
        self.data.set(idx + 3, c.a);
        proof {
            let w = self.width as int;
            assert forall|x2: int, y2: int|
                old(self).in_bounds(x2, y2) && !(x2 == x && y2 == y) implies #[trigger] self.px(x2, y2)
                    == old(self).px(x2, y2) by {
                lemma_index_bounds(x2, y2, w, self.height as int);
                if y2 * w + x2 == y * w + x {
                    lemma_index_injective(x2, y2, x as int, y as int, w);
                }
            }
        }
    }

    /// Wraps existing RGBA8 bytes; `data` holds exactly `width * height * 4` bytes.
    pub fn from_rgba(width: u32, height: u32, data: Vec<u8>) -> (buf: PixelBuffer)
        requires
            width * height * 4 <= u32::MAX,
            data@.len() == width * height * 4,
        ensures
            buf.wf(),
            buf.spec_width() == width,
            buf.spec_height() == height,
            buf.bytes() == data@,
    {
        PixelBuffer { width, height, data }
    }

    /// The interleaved RGBA8 bytes.
    pub fn as_slice(&self) -> (s: &[u8])
        ensures
            s@ == self.bytes(),
    {
        self.data.as_slice()
    }

    /// The interleaved RGBA8 bytes, writable in place.
    pub fn as_mut_slice(&mut self) -> (s: &mut [u8])
        ensures
            s@ == old(self).bytes(),
            final(self).bytes() == final(s)@,
            final(self).spec_width() == old(self).spec_width(),
            final(self).spec_height() == old(self).spec_height(),
    {
        self.data.as_mut_slice()
    }

    /// Every pixel becomes `c`.
    pub fn clear(&mut self, c: Rgba8)
        requires
            old(self).wf(),
        ensures
            final(self).wf(),
            final(self).spec_width() == old(self).spec_width(),
            final(self).spec_height() == old(self).spec_height(),
            forall|i: int|
                0 <= i < final(self).spec_width() * final(self).spec_height() ==> #[trigger] pixel_at(
                    final(self).bytes(),
                    i,
                ) == c,
            forall|x: int, y: int| final(self).in_bounds(x, y) ==> #[trigger] final(self).px(x, y) == c,
    {
        let n: usize = (self.width * self.height) as usize;
        let mut i: usize = 0;
        while i < n
            invariant
                n == self.width * self.height,
                self.wf(),
                self.width == old(self).width,
                self.height == old(self).height,
                i <= n,
                forall|j: int| 0 <= j < i ==> #[trigger] pixel_at(self.data@, j) == c,
            decreases n - i,
        {
            let k: usize = i * 4;
            let ghost prev = self.data@;
            self.data.set(k, c.r);
            self.data.set(k + 1, c.g);
            self.data.set(k + 2, c.b);
            self.data.set(k + 3, c.a);
            proof {
                assert forall|j: int| 0 <= j < i + 1 implies #[trigger] pixel_at(self.data@, j) == c by {
                    if j < i {
                        assert(pixel_at(prev, j) == c);
                    }
                }
            }
            i = i + 1;
        }
        proof {
            assert forall|x: int, y: int| self.in_bounds(x, y) implies #[trigger] self.px(x, y) == c by {
                lemma_index_bounds(x, y, self.width as int, self.height as int);
            }
        }
    }

    /// Changes the dimensions to `new_w * new_h`: the overlapping top-left region keeps its
    /// pixels and every new pixel is `bg`. Same dimensions leave the buffer untouched.
    pub fn resize_canvas(&mut self, new_w: u32, new_h: u32, bg: Rgba8)
        requires
            old(self).wf(),
            new_w * new_h * 4 <= u32::MAX,
        ensures
            final(self).wf(),
            final(self).spec_width() == new_w,
            final(self).spec_height() == new_h,
            new_w == old(self).spec_width() && new_h == old(self).spec_height() ==> *final(self) == *old(self),
            canvas_resized(old(self)@, final(self)@, new_w as nat, new_h as nat, bg),
            forall|x: int, y: int|
                final(self).in_bounds(x, y) ==> #[trigger] final(self).px(x, y) == (if old(self).in_bounds(x, y) {
                    old(self).px(x, y)
                } else {
                    bg
                }),
    {
        if new_w == self.width && new_h == self.height {
            return;
        }
        let mut new_buf = PixelBuffer::new(new_w, new_h);
        new_buf.clear(bg);
        let copy_w: u32 = if self.width < new_w { self.width } else { new_w };
        let copy_h: u32 = if self.height < new_h { self.height } else { new_h };
        let mut y: u32 = 0;
        while y < copy_h
            invariant
                self.wf(),
                new_buf.wf(),
                new_buf.spec_width() == new_w,
                new_buf.spec_height() == new_h,
                copy_w <= new_w,
                copy_w <= self.width,
                copy_h <= new_h,
                copy_h <= self.height,
                y <= copy_h,
                forall|xx: int, yy: int|
                    new_buf.in_bounds(xx, yy) ==> #[trigger] new_buf.px(xx, yy) == (if yy < y && xx < copy_w {
                        self.px(xx, yy)
                    } else {
                        bg
                    }),
            decreases copy_h - y,
        {
            let mut x: u32 = 0;
            while x < copy_w
                invariant
                    self.wf(),
                    new_buf.wf(),
                    new_buf.spec_width() == new_w,
                    new_buf.spec_height() == new_h,
                    copy_w <= new_w,
                    copy_w <= self.width,
                    copy_h <= new_h,
                    copy_h <= self.height,
                    y < copy_h,
                    x <= copy_w,
                    forall|xx: int, yy: int|
                        new_buf.in_bounds(xx, yy) ==> #[trigger] new_buf.px(xx, yy) == (if (yy < y && xx
                            < copy_w) || (yy == y && xx < x) {
                            self.px(xx, yy)
                        } else {
                            bg
                        }),
                decreases copy_w - x,
            {
                let p = self.get_pixel(x, y);
                new_buf.set_pixel(x, y, p);
                x = x + 1;
            }
            y = y + 1;
        }
        let ghost old_img = self@;
        *self = new_buf;
        assert forall|x: int, y: int| self@.in_bounds(x, y) implies #[trigger] self@.px(x, y) == (if old_img.in_bounds(
            x,
            y,
        ) {
            old_img.px(x, y)
        } else {
            bg
        }) by {
            assert(self.px(x, y) == (if old_img.in_bounds(x, y) { old_img.px(x, y) } else { bg }));
        }
    }

    /// Nearest-neighbour rescale to `new_w * new_h`: pixel `(x, y)` takes the source pixel
    /// `(src_x[x], src_y[y])`, the column and row that the sampling picks for each target column
    /// and row. Same dimensions leave the buffer untouched.
    pub fn resize_scaled(&mut self, new_w: u32, new_h: u32, src_x: &[u32], src_y: &[u32])
        requires
            old(self).wf(),
            new_w * new_h * 4 <= u32::MAX,
            !(new_w == old(self).spec_width() && new_h == old(self).spec_height()) ==> {
                &&& src_x@.len() == new_w
                &&& src_y@.len() == new_h
                &&& forall|i: int| 0 <= i < new_w ==> #[trigger] src_x@[i] < old(self).spec_width()
                &&& forall|j: int| 0 <= j < new_h ==> #[trigger] src_y@[j] < old(self).spec_height()
            },
        ensures
            final(self).wf(),
            final(self).spec_width() == new_w,
            final(self).spec_height() == new_h,
            new_w == old(self).spec_width() && new_h == old(self).spec_height() ==> *final(self) == *old(self),
            !(new_w == old(self).spec_width() && new_h == old(self).spec_height()) ==> forall|x: int, y: int|
                final(self).in_bounds(x, y) ==> #[trigger] final(self).px(x, y) == old(self).px(
                    src_x@[x] as int,
                    src_y@[y] as int,
                ),
    {
        if new_w == self.width && new_h == self.height {
            return;
        }
        let mut new_buf = PixelBuffer::new(new_w, new_h);
        let mut y: u32 = 0;
        while y < new_h
            invariant
                self.wf(),
                new_buf.wf(),
                new_buf.spec_width() == new_w,
                new_buf.spec_height() == new_h,
                y <= new_h,
                src_x@.len() == new_w,
                src_y@.len() == new_h,
                forall|i: int| 0 <= i < new_w ==> #[trigger] src_x@[i] < self.spec_width(),
                forall|j: int| 0 <= j < new_h ==> #[trigger] src_y@[j] < self.spec_height(),
                forall|xx: int, yy: int|
                    new_buf.in_bounds(xx, yy) && yy < y ==> #[trigger] new_buf.px(xx, yy) == self.px(
                        src_x@[xx] as int,
                        src_y@[yy] as int,
                    ),
            decreases new_h - y,
        {
            let mut x: u32 = 0;
            while x < new_w
                invariant
                    self.wf(),
                    new_buf.wf(),
                    new_buf.spec_width() == new_w,
                    new_buf.spec_height() == new_h,
                    y < new_h,
                    x <= new_w,
                    src_x@.len() == new_w,
                    src_y@.len() == new_h,
                    forall|i: int| 0 <= i < new_w ==> #[trigger] src_x@[i] < self.spec_width(),
                    forall|j: int| 0 <= j < new_h ==> #[trigger] src_y@[j] < self.spec_height(),
                    forall|xx: int, yy: int|
                        new_buf.in_bounds(xx, yy) && (yy < y || (yy == y && xx < x))
                            ==> #[trigger] new_buf.px(xx, yy) == self.px(src_x@[xx] as int, src_y@[yy] as int),
                decreases new_w - x,
            {
                let sx = src_x[x as usize];
                let sy = src_y[y as usize];
                let p = self.get_pixel(sx, sy);
                new_buf.set_pixel(x, y, p);
                x = x + 1;
            }
            y = y + 1;
        }
        *self = new_buf;
    }

    /// Replaces every pixel, row by row, by what `f` returns for its coordinates and colour.
    pub fn for_each_pixel<F: Fn(u32, u32, Rgba8) -> Rgba8>(&mut self, f: F)
        requires
            old(self).wf(),
            forall|x: u32, y: u32, c: Rgba8|
                old(self).in_bounds(x as int, y as int) ==> #[trigger] f.requires((x, y, c)),
        ensures
            final(self).wf(),
            final(self).spec_width() == old(self).spec_width(),
            final(self).spec_height() == old(self).spec_height(),
            forall|x: u32, y: u32|
                old(self).in_bounds(x as int, y as int) ==> f.ensures(
                    (x, y, old(self).px(x as int, y as int)),
                    #[trigger] final(self).px(x as int, y as int),
                ),
    {
        let ghost b0 = self@;
        let w = self.width;
        let h = self.height;
        let mut y: u32 = 0;
        while y < h
            invariant
                self.wf(),
                self.width == w,
                self.height == h,
                b0.width == w,
                b0.height == h,
                y <= h,
                forall|x: u32, y: u32, c: Rgba8| b0.in_bounds(x as int, y as int) ==> #[trigger] f.requires((x, y, c)),
                forall|xx: u32, yy: u32|
                    #![trigger self.px(xx as int, yy as int)]
                    b0.in_bounds(xx as int, yy as int) ==> if yy < y {
                        f.ensures((xx, yy, b0.px(xx as int, yy as int)), self.px(xx as int, yy as int))
                    } else {
                        self.px(xx as int, yy as int) == b0.px(xx as int, yy as int)
                    },
            decreases h - y,
        {
            let mut x: u32 = 0;
            while x < w
                invariant
                    self.wf(),
                    self.width == w,
                    self.height == h,
                    b0.width == w,
                    b0.height == h,
                    y < h,
                    x <= w,
                    forall|x: u32, y: u32, c: Rgba8| b0.in_bounds(x as int, y as int) ==> #[trigger] f.requires((x, y, c)),
                    forall|xx: u32, yy: u32|
                        #![trigger self.px(xx as int, yy as int)]
                        b0.in_bounds(xx as int, yy as int) ==> if yy < y || (yy == y && xx < x) {
                            f.ensures((xx, yy, b0.px(xx as int, yy as int)), self.px(xx as int, yy as int))
                        } else {
                            self.px(xx as int, yy as int) == b0.px(xx as int, yy as int)
                        },
                decreases w - x,
            {
                let c = self.get_pixel(x, y);
                let n = f(x, y, c);
                self.set_pixel(x, y, n);
                x = x + 1;
            }
            y = y + 1;
        }
    }

    /// Sets the alpha byte of flat pixel `i`.
    pub(crate) fn set_alpha_at(&mut self, i: usize, a: u8)
        requires
            old(self).wf(),
            i < old(self).spec_width() * old(self).spec_height(),
        ensures
            final(self).wf(),
            final(self).spec_width() == old(self).spec_width(),
            final(self).spec_height() == old(self).spec_height(),
            final(self).bytes() == old(self).bytes().update(4 * i + 3, a),
    {
        self.data.set(i * 4 + 3, a);
    }

    /// The alpha byte of flat pixel `i`.
    pub(crate) fn alpha_at(&self, i: usize) -> (a: u8)
        requires
            self.wf(),
            i < self.spec_width() * self.spec_height(),
        ensures
            a == self.bytes()[4 * i + 3],
    {
        self.data[i * 4 + 3]
    }
}

} // verus!
