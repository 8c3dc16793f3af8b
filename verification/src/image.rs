//! An owned RGBA8 pixel buffer.

use vstd::prelude::*;

verus! {

/// What an [`RgbaImage`] holds: its size and its pixels, four bytes (R, G, B, A) each, row by row.
pub struct ImageView {
    pub width: u32,
    pub height: u32,
    pub data: Seq<u8>,
}

/// The number of bytes of a `width` x `height` RGBA8 image.
pub open spec fn rgba_len(width: u32, height: u32) -> int {
    width * height * 4
}

/// `data` is `n` pixels, each equal to `pixel`.
pub open spec fn is_filled(data: Seq<u8>, n: int, pixel: Seq<u8>) -> bool {
    &&& data.len() == 4 * n
    &&& forall|i: int, k: int| 0 <= i < n && 0 <= k < 4 ==> #[trigger] data[4 * i + k] == pixel[k]
}

/// The four bytes of pixel `i` of `data`.
pub open spec fn pixel_at(data: Seq<u8>, i: int) -> Seq<u8> {
    data.subrange(4 * i, 4 * i + 4)
}

/// `data` is `n` pixels, pixel `i` being `f(i)`.
pub open spec fn pixels_are(data: Seq<u8>, n: int, f: spec_fn(int) -> Seq<u8>) -> bool {
    &&& data.len() == 4 * n
    &&& forall|i: int| 0 <= i < n ==> #[trigger] pixel_at(data, i) == f(i)
}

/// Appending pixel `n` to `n` pixels.
pub proof fn lemma_pixels_push(data: Seq<u8>, n: int, f: spec_fn(int) -> Seq<u8>, p: Seq<u8>)
    requires
        0 <= n,
        pixels_are(data, n, f),
        p.len() == 4,
        p == f(n),
    ensures
        pixels_are(data + p, n + 1, f),
{
    let d = data + p;
    assert forall|i: int| 0 <= i < n + 1 implies #[trigger] pixel_at(d, i) == f(i) by {
        if i < n {
            assert(pixel_at(d, i) =~= pixel_at(data, i));
        } else {
            assert(pixel_at(d, i) =~= p);
        }
    }
}

/// An RGBA8 image whose buffer always holds exactly `width * height * 4` bytes.
#[derive(Debug, PartialEq, Eq)]
pub struct RgbaImage {
    width: u32,
    height: u32,
    data: Vec<u8>,
}

impl View for RgbaImage {
    type V = ImageView;

    closed spec fn view(&self) -> ImageView {
        ImageView { width: self.width, height: self.height, data: self.data@ }
    }
}

impl RgbaImage {
    #[verifier::type_invariant]
    spec fn buffer_fits(self) -> bool {
        self.data@.len() == rgba_len(self.width, self.height)
    }

    /// A `width` x `height` image with every byte zero.
    pub fn new(width: u32, height: u32) -> (r: RgbaImage)
        requires
            rgba_len(width, height) <= usize::MAX,
        ensures
            r@ == (ImageView { width, height, data: Seq::new(rgba_len(width, height) as nat, |i: int| 0u8) }),
    {
        let n: usize = (width as usize) * (height as usize) * 4;
        let mut data: Vec<u8> = Vec::new();
        let mut i: usize = 0;
        while i < n
            invariant
                i <= n,
                n == rgba_len(width, height),
                data@ == Seq::new(i as nat, |j: int| 0u8),
            decreases n - i,
        {
            data.push(0u8);
            i = i + 1;
            assert(data@ =~= Seq::new(i as nat, |j: int| 0u8));
        }
        RgbaImage { width, height, data }
    }

    /// A `width` x `height` image with every pixel equal to `pixel`.
    pub fn from_pixel(width: u32, height: u32, pixel: [u8; 4]) -> (r: RgbaImage)
        requires
            rgba_len(width, height) <= usize::MAX,
        ensures
            r@.width == width,
            r@.height == height,
            is_filled(r@.data, width * height, pixel@),
    {
        let n: usize = (width as usize) * (height as usize);
        let mut data: Vec<u8> = Vec::new();
        let mut i: usize = 0;
        while i < n
            invariant
                i <= n,
                n == width * height,
                n * 4 <= usize::MAX,
                is_filled(data@, i as int, pixel@),
            decreases n - i,
        {
            let ghost before = data@;
            data.push(pixel[0]);
            data.push(pixel[1]);
            data.push(pixel[2]);
            data.push(pixel[3]);
            assert forall|a: int, k: int| 0 <= a < i + 1 && 0 <= k < 4 implies #[trigger] data@[4
                * a + k] == pixel@[k] by {
                if a < i {
                    assert(data@[4 * a + k] == before[4 * a + k]);
                }
            }
            i = i + 1;
        }
        RgbaImage { width, height, data }
    }

    /// The image of the given size over `data`, if `data` holds exactly `width * height * 4` bytes.
    pub fn from_raw(width: u32, height: u32, data: Vec<u8>) -> (r: Option<RgbaImage>)
        ensures
            r is Some <==> data@.len() == rgba_len(width, height),
            r matches Some(img) ==> img@ == (ImageView { width, height, data: data@ }),
    {
        let w = width as u128;
        let h = height as u128;
        assert(w * h <= 0xFFFF_FFFFu128 * 0xFFFF_FFFFu128) by (nonlinear_arith)
            requires
                w <= 0xFFFF_FFFFu128,
                h <= 0xFFFF_FFFFu128,
        ;
        if (data.len() as u128) == w * h * 4 {
            Some(RgbaImage { width, height, data })
        } else {
            None
        }
    }

    pub fn width(&self) -> (r: u32)
        ensures
            r == self@.width,
    {
        self.width
    }

    pub fn height(&self) -> (r: u32)
        ensures
            r == self@.height,
    {
        self.height
    }

    pub fn dimensions(&self) -> (r: (u32, u32))
        ensures
            r == (self@.width, self@.height),
    {
        (self.width, self.height)
    }

    /// The pixel bytes, row by row.
    pub fn as_raw(&self) -> (r: &Vec<u8>)
        ensures
            r@ == self@.data,
            r@.len() == rgba_len(self@.width, self@.height),
    {
        proof {
            use_type_invariant(self);
        }
        &self.data
    }

    /// The pixel bytes, row by row.
    pub fn into_raw(self) -> (r: Vec<u8>)
        ensures
            r@ == self@.data,
            r@.len() == rgba_len(self@.width, self@.height),
    {
        proof {
            use_type_invariant(&self);
        }
        self.data
    }

    /// The four bytes of the pixel at column `x`, row `y`.
    pub fn get_pixel(&self, x: u32, y: u32) -> (r: [u8; 4])
        requires
            x < self@.width,
            y < self@.height,
        ensures
            r@ == self@.data.subrange(
                4 * (y * self@.width + x),
                4 * (y * self@.width + x) + 4,
            ),
    {
        proof {
            use_type_invariant(self);
            assert(y * self.width + x < self.width * self.height) by (nonlinear_arith)
                requires
                    x < self.width,
                    y < self.height,
            ;
        }
        let n = self.data.len();
        let i: usize = 4 * ((y as usize) * (self.width as usize) + (x as usize));
        let r = [self.data[i], self.data[i + 1], self.data[i + 2], self.data[i + 3]];
        assert(r@ =~= self@.data.subrange(i as int, i + 4));
        r
    }
}

impl Clone for RgbaImage {
    fn clone(&self) -> (r: RgbaImage)
        ensures
            r@ == self@,
    {
        proof {
            use_type_invariant(self);
        }
        let mut data: Vec<u8> = Vec::new();
        crate::bytes::push_bytes(&mut data, self.data.as_slice());
        RgbaImage { width: self.width, height: self.height, data }
    }
}

} // verus!
