//! A picture to send: rows of red, green, blue pixels.
use crate::color::{rgb_to_ycc, rgb_to_ycc_exec, Rgb};
use vstd::prelude::*;

verus! {

#[derive(PartialEq, Eq, Structural, Debug, Clone, Copy)]
pub enum ImageCreationError {
    /// The number of pixels given, and the number the size calls for.
    VectorSize(usize, usize),
}

/// The pixels of a picture, row after row.
pub struct SSTVImage {
    pub width: usize,
    pub height: usize,
    pub image: Vec<Rgb>,
}

/// Nearest source position of position `x` when `old` positions are
/// stretched to `new`: `x * old / new` rounded to the nearest, at most the
/// last position.
pub open spec fn source_of(x: nat, old: nat, new: nat) -> nat {
    let r = (2 * x * old + new) / (2 * new);
    if r < old - 1 {
        r
    } else {
        (old - 1) as nat
    }
}

fn source_of_exec(x: usize, old: usize, new: usize) -> (r: usize)
    requires
        x < new,
        old >= 1,
        old <= 0xffff_ffff,
        new <= 0xffff_ffff,
    ensures
        r == source_of(x as nat, old as nat, new as nat),
        r < old,
{
    assert(2 * x * old + new <= 2 * 0xffff_ffffnat * 0xffff_ffff + 0xffff_ffff) by (nonlinear_arith)
        requires x < new, new <= 0xffff_ffff, old <= 0xffff_ffff;
    let r: u128 = (2 * x as u128 * old as u128 + new as u128) / (2 * new as u128);
    if r < old as u128 - 1 {
        r as usize
    } else {
        old - 1
    }
}

impl SSTVImage {
    pub open spec fn wf(&self) -> bool {
        self.image@.len() == self.width * self.height
    }

    /// Pixel at column `x` of row `y`.
    pub open spec fn pixel(&self, x: int, y: int) -> Rgb {
        self.image@[y * self.width + x]
    }

    /// A picture of `width` by `height` pixels, given row after row; the
    /// number of pixels must match the size.
    pub fn new(width: usize, height: usize, image: Vec<Rgb>) -> (r: Result<Self, ImageCreationError>)
        requires
            width * height <= usize::MAX,
        ensures
            r is Ok <==> image@.len() == width * height,
            r matches Ok(v) ==> v.wf() && v.width == width && v.height == height && v.image@ == image@,
            r matches Err(e) ==> e == ImageCreationError::VectorSize(image@.len() as usize, (width * height) as usize),
    {
        let n = width * height;
        if image.len() != n {
            return Err(ImageCreationError::VectorSize(image.len(), n));
        }
        Ok(SSTVImage { width, height, image })
    }

    pub fn get_height(&self) -> (r: usize)
        ensures
            r == self.height,
    {
        self.height
    }

    pub fn get_width(&self) -> (r: usize)
        ensures
            r == self.width,
    {
        self.width
    }

    /// Red, green, blue of the pixel at column `x` of row `y`.
    pub fn get_rgb_pixel(&self, x: usize, y: usize) -> (r: Rgb)
        requires
            self.wf(),
            x < self.width,
            y < self.height,
        ensures
            r == self.pixel(x as int, y as int),
    {
        let n = self.image.len();
        assert(y * self.width + x < self.width * self.height) by (nonlinear_arith)
            requires x < self.width, y < self.height;
        assert(y * self.width <= y * self.width + x);
        self.image[y * self.width + x]
    }

    /// Y, R-Y, B-Y of the pixel at column `x` of row `y`.
    pub fn get_ycrcb_pixel(&self, x: usize, y: usize) -> (r: (u8, u8, u8))
        requires
            self.wf(),
            x < self.width,
            y < self.height,
        ensures
            r == rgb_to_ycc(self.pixel(x as int, y as int)),
    {
        rgb_to_ycc_exec(self.get_rgb_pixel(x, y))
    }

    /// The picture stretched to `new_width` by `new_height`, each pixel
    /// taken from the nearest source pixel.
    pub fn resize_image(&self, new_width: usize, new_height: usize) -> (r: Self)
        requires
            self.wf(),
            1 <= self.width <= 0xffff_ffff,
            1 <= self.height <= 0xffff_ffff,
            new_width <= 0xffff_ffff,
            new_height <= 0xffff_ffff,
            new_width * new_height <= usize::MAX,
        ensures
            r.wf(),
            r.width == new_width,
            r.height == new_height,
            forall|x: int, y: int|
                0 <= x < new_width && 0 <= y < new_height ==> #[trigger] r.pixel(x, y) == self.pixel(
                    source_of(x as nat, self.width as nat, new_width as nat) as int,
                    source_of(y as nat, self.height as nat, new_height as nat) as int,
                ),
    {
        let mut out: Vec<Rgb> = Vec::new();
        let mut y: usize = 0;
        while y < new_height
            invariant
                y <= new_height,
                self.wf(),
                1 <= self.width <= 0xffff_ffff,
                1 <= self.height <= 0xffff_ffff,
                new_width <= 0xffff_ffff,
                new_height <= 0xffff_ffff,
                new_width * new_height <= usize::MAX,
                out@.len() == y * new_width,
                forall|i: int, j: int|
                    0 <= i < new_width && 0 <= j < y ==> #[trigger] out@[j * new_width + i] == self.pixel(
                        source_of(i as nat, self.width as nat, new_width as nat) as int,
                        source_of(j as nat, self.height as nat, new_height as nat) as int,
                    ),
            decreases new_height - y,
        {
            let sy = source_of_exec(y, self.height, new_height);
            let mut x: usize = 0;
            let ghost before = out@;
            assert((y + 1) * new_width <= new_width * new_height) by (nonlinear_arith)
                requires y < new_height;
            while x < new_width
                invariant
                    x <= new_width,
                    y < new_height,
                    self.wf(),
                    1 <= self.width <= 0xffff_ffff,
                    new_width <= 0xffff_ffff,
                    (y + 1) * new_width <= usize::MAX,
                    sy < self.height,
                    sy == source_of(y as nat, self.height as nat, new_height as nat),
                    before.len() == y * new_width,
                    out@.len() == y * new_width + x,
                    out@.subrange(0, before.len() as int) == before,
                    forall|i: int| 0 <= i < x ==> #[trigger] out@[y * new_width + i] == self.pixel(
                        source_of(i as nat, self.width as nat, new_width as nat) as int,
                        sy as int,
                    ),
                decreases new_width - x,
            {
                let sx = source_of_exec(x, self.width, new_width);
                let p = self.get_rgb_pixel(sx, sy);
                assert(y * new_width + x + 1 <= (y + 1) * new_width) by (nonlinear_arith)
                    requires x < new_width;
                out.push(p);
                x = x + 1;
                assert(out@.subrange(0, before.len() as int) =~= before);
            }
            assert forall|i: int, j: int|
                0 <= i < new_width && 0 <= j < y + 1 implies #[trigger] out@[j * new_width + i] == self.pixel(
                    source_of(i as nat, self.width as nat, new_width as nat) as int,
                    source_of(j as nat, self.height as nat, new_height as nat) as int,
                ) by {
                if j < y {
                    assert(j * new_width + i < y * new_width) by (nonlinear_arith)
                        requires j < y, i < new_width;
                    assert(out@[j * new_width + i] == before[j * new_width + i]);
                }
            }
            assert(out@.len() == (y + 1) * new_width) by (nonlinear_arith)
                requires out@.len() == y * new_width + new_width;
            y = y + 1;
        }
        let r = SSTVImage { width: new_width, height: new_height, image: out };
        assert forall|x: int, y: int| 0 <= x < new_width && 0 <= y < new_height implies #[trigger] r.pixel(x, y)
            == self.pixel(
            source_of(x as nat, self.width as nat, new_width as nat) as int,
            source_of(y as nat, self.height as nat, new_height as nat) as int,
        ) by {
            assert(r.pixel(x, y) == out@[y * new_width + x]);
        }
        assert(r.image@.len() == new_width * new_height) by (nonlinear_arith)
            requires r.image@.len() == y * new_width, y == new_height;
        r
    }
}

} // verus!
