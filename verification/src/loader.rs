//! Image preparation: decode a byte buffer into RGB pixels, resize preserving
//! the aspect ratio to a target longest side, and lay the pixels out as a
//! channel-first tensor.

use vstd::prelude::*;
use vstd::arithmetic::div_mod::{
    lemma_div_is_ordered, lemma_fundamental_div_mod, lemma_fundamental_div_mod_converse,
};
use vstd::arithmetic::mul::lemma_mul_inequality;

verus! {

/// A decoded image: 8-bit RGB samples in row-major (height, width, channel)
/// order, three samples per pixel.
#[derive(Debug)]
pub struct RawImage {
    pub height: usize,
    pub width: usize,
    pub pixels: Vec<u8>,
}

impl RawImage {
    pub open spec fn wf(&self) -> bool {
        self.pixels.len() == 3 * self.height * self.width
    }
}

/// A packed channel-first tensor of shape (3, height, width): sample
/// `(c, y, x)` lives at index `c * height * width + y * width + x`.
#[derive(Debug)]
pub struct ImageTensor {
    pub height: usize,
    pub width: usize,
    pub data: Vec<u8>,
}

impl ImageTensor {
    /// The shape invariant: the buffer holds exactly 3 * height * width
    /// samples, whatever the source image's orientation was.
    pub open spec fn wf(&self) -> bool {
        self.data.len() == 3 * self.height * self.width
    }

    /// The sample of channel `c` at row `y`, column `x`.
    pub open spec fn at(&self, c: int, y: int, x: int) -> u8 {
        self.data[c * (self.height * self.width) + y * self.width + x]
    }
}

/// Failure of image preparation.
#[derive(Clone, Copy, Debug, PartialEq, Eq, Structural)]
pub enum ImageError {
    /// The byte buffer is not a decodable image.
    Decode,
    /// The requested resize would give the image a zero dimension.
    InvalidDimensions,
}

impl ImageError {
    /// A description of the failure.
    pub fn message(&self) -> (r: String)
        ensures
            self is Decode ==> r@ == "the bytes are not a decodable image"@,
            self is InvalidDimensions ==> r@
                == "the resize target gives the image a zero dimension"@,
    {
        match self {
            ImageError::Decode => String::from_str("the bytes are not a decodable image"),
            ImageError::InvalidDimensions => String::from_str(
                "the resize target gives the image a zero dimension",
            ),
        }
    }
}

/// The channel-first permutation of a (height, width, channel) row-major
/// pixel buffer: entry `k` of the result is sample `k / (h * w)` of pixel
/// `k % (h * w)` of the input.
pub open spec fn chw(pixels: Seq<u8>, h: nat, w: nat) -> Seq<u8> {
    Seq::new(3 * h * w, |k: int| pixels[(k % (h * w) as int) * 3 + k / (h * w) as int])
}

/// The aspect-ratio-preserving dimensions for a resize of an `h` by `w`
/// image whose longest side becomes `target`: the shorter side is scaled by
/// the same ratio, rounding down.
pub open spec fn resized_dims(h: nat, w: nat, target: nat) -> (nat, nat) {
    if 0 < w && h < w {
        ((target * h) / w, target)
    } else if 0 < h && w <= h {
        (target, (target * w) / h)
    } else {
        (0, 0)
    }
}

/// Decoding a byte buffer as an image: `None` when the bytes are not a
/// supported image, otherwise the height, the width and the row-major RGB
/// samples of the decoded picture.
pub uninterp spec fn rgb8_decode(bytes: Seq<u8>) -> Option<(nat, nat, Seq<u8>)>;

/// Catmull-Rom resampling of an `h` by `w` row-major RGB buffer to `nh` rows
/// and `nw` columns.
pub uninterp spec fn catmull_rom_resample(
    pixels: Seq<u8>,
    h: nat,
    w: nat,
    nh: nat,
    nw: nat,
) -> Seq<u8>;

/// Relies on image::load_from_memory and image::DynamicImage::to_rgb8: the
/// decoded picture is a function of the bytes alone; its dimensions are u32
/// values and the RGB8 buffer holds three samples per pixel.
#[verifier::external_body]
fn decode_rgb8(bytes: &Vec<u8>) -> (r: Result<RawImage, ImageError>)
    ensures
        r is Ok <==> rgb8_decode(bytes@) is Some,
        r matches Ok(img) ==> {
            &&& rgb8_decode(bytes@) == Some((img.height as nat, img.width as nat, img.pixels@))
            &&& img.wf()
            &&& img.height as int <= u32::MAX as int
            &&& img.width as int <= u32::MAX as int
        },
        r matches Err(e) ==> e is Decode,
{
    match image::load_from_memory(bytes.as_slice()) {
        Ok(decoded) => {
            let rgb = decoded.to_rgb8();
            let (w, h) = rgb.dimensions();
            Ok(RawImage { height: h as usize, width: w as usize, pixels: rgb.into_raw() })
        },
        Err(_) => Err(ImageError::Decode),
    }
}

/// Relies on image::imageops::resize with FilterType::CatmullRom: the output
/// buffer has exactly the requested dimensions, three samples per pixel, and
/// its samples depend only on the input samples and the four dimensions.
#[verifier::external_body]
fn resize_catmull_rom(img: &RawImage, nh: usize, nw: usize) -> (r: RawImage)
    requires
        img.wf(),
        1 <= img.height,
        1 <= img.width,
        img.height as int <= u32::MAX as int,
        img.width as int <= u32::MAX as int,
        1 <= nh,
        1 <= nw,
        nh as int <= u32::MAX as int,
        nw as int <= u32::MAX as int,
        3 * (nh as int) * (nw as int) <= usize::MAX as int,
    ensures
        r.height == nh,
        r.width == nw,
        r.wf(),
        r.pixels@ == catmull_rom_resample(
            img.pixels@,
            img.height as nat,
            img.width as nat,
            nh as nat,
            nw as nat,
        ),
{
    let buf = image::RgbImage::from_raw(img.width as u32, img.height as u32, img.pixels.clone())
        .unwrap();
    let out = image::imageops::resize(
        &buf,
        nw as u32,
        nh as u32,
        image::imageops::FilterType::CatmullRom,
    );
    RawImage { height: nh, width: nw, pixels: out.into_raw() }
}

/// The dimensions of the longest-side resize: scale the longer of `h` and
/// `w` to exactly `target` and the other side by the same ratio, rounding
/// down.
pub fn resize_dims(h: usize, w: usize, target: usize) -> (r: (usize, usize))
    requires
        1 <= h,
        1 <= w,
        h as int <= u32::MAX as int,
        w as int <= u32::MAX as int,
        target as int <= u32::MAX as int,
    ensures
        (r.0 as nat, r.1 as nat) == resized_dims(h as nat, w as nat, target as nat),
        r.0 <= target,
        r.1 <= target,
        h < w ==> r.1 == target,
        w <= h ==> r.0 == target,
{
    if h < w {
        proof {
            assert((target as int) * (h as int) <= u64::MAX as int) by (nonlinear_arith)
                requires 0 <= target <= u32::MAX as int, 0 <= h <= u32::MAX as int;
        }
        let nh64: u64 = ((target as u64) * (h as u64)) / (w as u64);
        proof {
            lemma_mul_inequality(h as int, w as int, target as int);
            lemma_div_is_ordered((target * h) as int, (target * w) as int, w as int);
            assert((target * w) as int / (w as int) == target as int) by (nonlinear_arith)
                requires 1 <= w;
        }
        (nh64 as usize, target)
    } else {
        proof {
            assert((target as int) * (w as int) <= u64::MAX as int) by (nonlinear_arith)
                requires 0 <= target <= u32::MAX as int, 0 <= w <= u32::MAX as int;
        }
        let nw64: u64 = ((target as u64) * (w as u64)) / (h as u64);
        proof {
            lemma_mul_inequality(w as int, h as int, target as int);
            lemma_div_is_ordered((target * w) as int, (target * h) as int, h as int);
            assert((target * h) as int / (h as int) == target as int) by (nonlinear_arith)
                requires 1 <= h;
        }
        (target, nw64 as usize)
    }
}

/// Law: the channel-first permutation only reorders the axes. Sample
/// `(c, y, x)` of the permuted buffer is sample `c` of pixel `(y, x)` of the
/// row-major original.
pub proof fn lemma_chw_sample(pixels: Seq<u8>, h: nat, w: nat, c: int, y: int, x: int)
    requires
        pixels.len() == 3 * h * w,
        0 <= c < 3,
        0 <= y < h,
        0 <= x < w,
    ensures
        chw(pixels, h, w)[c * (h * w) + y * w + x] == pixels[(y * w + x) * 3 + c],
{
    let hw = (h * w) as int;
    let q = y * w + x;
    assert(0 <= q < hw) by (nonlinear_arith)
        requires 0 <= y < h, 0 <= x < w, hw == (h as int) * (w as int), q == y * (w as int) + x;
    assert(c * hw + q < 3 * hw) by (nonlinear_arith)
        requires 0 <= q < hw, 0 <= c < 3;
    lemma_fundamental_div_mod_converse(c * hw + q, hw, c, q);
    let k = c * hw + q;
    assert(0 <= k < (3 * h * w) as int) by (nonlinear_arith)
        requires
            0 <= c < 3,
            0 <= q < hw,
            hw == (h as int) * (w as int),
            k == c * hw + q;
    assert(chw(pixels, h, w)[k] == pixels[q * 3 + c]);
}

/// Scaling a side that is strictly shorter than the longest one stays
/// strictly under the target.
proof fn lemma_scaled_side_lt(t: nat, a: nat, b: nat)
    requires
        1 <= t,
        1 <= b,
        a < b,
    ensures
        (t * a) / b < t,
{
    let q = (t * a) / b;
    let r = (t * a) % b;
    lemma_fundamental_div_mod((t * a) as int, b as int);
    assert(q < t) by (nonlinear_arith)
        requires
            (t * a) as int == (b as int) * (q as int) + r,
            0 <= r,
            0 <= q,
            a < b,
            1 <= t,
            1 <= b;
}

/// A side that already equals the target is left exactly there by a further
/// resize to the same target.
proof fn lemma_scale_by_target_exact(t: nat, x: nat)
    requires
        1 <= t,
    ensures
        (t * x) / t == x,
{
    assert((t * x) as int == (x as int) * (t as int) + 0) by (nonlinear_arith);
    lemma_fundamental_div_mod_converse((t * x) as int, t as int, x as int, 0);
}

/// Law: longest-side resizing is idempotent. An image whose dimensions
/// already are those of a longest-side resize to `target` keeps exactly
/// those dimensions when resized to the same target again.
pub proof fn lemma_resize_idempotent(h: nat, w: nat, target: nat)
    requires
        1 <= h,
        1 <= w,
        1 <= target,
    ensures
        ({
            let (nh, nw) = resized_dims(h, w, target);
            1 <= nh && 1 <= nw ==> resized_dims(nh, nw, target) == (nh, nw)
        }),
{
    let (nh, nw) = resized_dims(h, w, target);
    if 1 <= nh && 1 <= nw {
        if h < w {
            assert(nh == (target * h) / w && nw == target);
            lemma_scaled_side_lt(target, h, w);
            assert(nh < target);
            lemma_scale_by_target_exact(target, nh);
            assert(resized_dims(nh, nw, target) == ((target * nh) / target, target));
        } else {
            assert(nh == target && nw == (target * w) / h);
            if w < h {
                lemma_scaled_side_lt(target, w, h);
                assert(nw < target);
            } else {
                assert(w == h);
                lemma_scale_by_target_exact(w, target);
                assert((w * target) as int == (target * w) as int) by (nonlinear_arith);
                assert(nw == target);
            }
            lemma_scale_by_target_exact(target, nw);
            assert(resized_dims(nh, nw, target) == (target, (target * nw) / target));
        }
    }
}

/// Repack a row-major (height, width, channel) pixel buffer as a
/// channel-first (channel, height, width) tensor; only the axis order
/// changes, no sample value does.
pub fn to_channel_first(img: &RawImage) -> (t: ImageTensor)
    requires
        img.wf(),
    ensures
        t.wf(),
        t.height == img.height,
        t.width == img.width,
        t.data@ == chw(img.pixels@, img.height as nat, img.width as nat),
{
    let h: usize = img.height;
    let w: usize = img.width;
    let ghost hw: int = (h as int) * (w as int);
    proof {
        assert(3 * hw == img.pixels@.len()) by (nonlinear_arith)
            requires img.pixels@.len() == 3 * (h as nat) * (w as nat), hw == (h as int) * (w as int);
    }
    let mut data: Vec<u8> = Vec::new();
    let mut c: usize = 0;
    while c < 3
        invariant
            c <= 3,
            img.wf(),
            hw == (h as int) * (w as int),
            3 * hw == img.pixels@.len(),
            h == img.height,
            w == img.width,
            data.len() == c * hw,
            forall|k: int| 0 <= k < data.len()
                ==> data[k] == img.pixels@[(k % hw) * 3 + k / hw],
        decreases 3 - c,
    {
        let mut y: usize = 0;
        while y < h
            invariant
                c < 3,
                y <= h,
                img.wf(),
                hw == (h as int) * (w as int),
                3 * hw == img.pixels@.len(),
                h == img.height,
                w == img.width,
                data.len() == c * hw + y * w,
                forall|k: int| 0 <= k < data.len()
                    ==> data[k] == img.pixels@[(k % hw) * 3 + k / hw],
            decreases h - y,
        {
            let mut x: usize = 0;
            while x < w
                invariant
                    c < 3,
                    y < h,
                    x <= w,
                    img.wf(),
                    hw == (h as int) * (w as int),
                    3 * hw == img.pixels@.len(),
                    h == img.height,
                    w == img.width,
                    data.len() == c * hw + y * w + x,
                    forall|k: int| 0 <= k < data.len()
                        ==> data[k] == img.pixels@[(k % hw) * 3 + k / hw],
                decreases w - x,
            {
                proof {
                    assert((y as int) * (w as int) + x < hw) by (nonlinear_arith)
                        requires y < h, x < w, 0 <= y, 0 <= x, hw == (h as int) * (w as int);
                    assert(c * hw + ((y as int) * (w as int) + x) < 3 * hw) by (nonlinear_arith)
                        requires c < 3, 0 <= (y as int) * (w as int) + x < hw;
                    assert(((y as int) * (w as int) + x) * 3 + c < 3 * hw) by (nonlinear_arith)
                        requires c < 3, 0 <= (y as int) * (w as int) + x < hw;
                }
                let q: usize = y * w + x;
                let idx: usize = q * 3 + c;
                let sample: u8 = img.pixels[idx];
                data.push(sample);
                proof {
                    let k = c * hw + (q as int);
                    lemma_fundamental_div_mod_converse(k, hw, c as int, q as int);
                    assert(data[k] == img.pixels@[(k % hw) * 3 + k / hw]);
                }
                x = x + 1;
            }
            proof {
                assert((y as int + 1) * (w as int) == (y as int) * (w as int) + w)
                    by (nonlinear_arith);
            }
            y = y + 1;
        }
        proof {
            assert(c * hw + (h as int) * (w as int) == (c + 1) * hw) by (nonlinear_arith)
                requires hw == (h as int) * (w as int);
        }
        c = c + 1;
    }
    let t = ImageTensor { height: h, width: w, data };
    proof {
        assert(t.data@.len() == 3 * (h as nat) * (w as nat)) by (nonlinear_arith)
            requires t.data@.len() == 3 * ((h as int) * (w as int));
        assert(t.data@ =~= chw(img.pixels@, h as nat, w as nat));
    }
    t
}

/// A load succeeds when the bytes decode and the requested resize (if any)
/// leaves neither dimension zero.
pub open spec fn image_load_ok(bytes: Seq<u8>, resize_longest: Option<usize>) -> bool {
    rgb8_decode(bytes) matches Some(d) && (resize_longest matches Some(t) ==> {
        let (nh, nw) = resized_dims(d.0, d.1, t as nat);
        0 < nh && 0 < nw
    })
}

/// The dimensions of the tensor a successful load yields: the decoded
/// dimensions, scaled when a resize target was given.
pub open spec fn loaded_tensor_dims(bytes: Seq<u8>, resize_longest: Option<usize>) -> (nat, nat) {
    let d = rgb8_decode(bytes)->0;
    match resize_longest {
        None => (d.0, d.1),
        Some(t) => resized_dims(d.0, d.1, t as nat),
    }
}

/// The samples of the tensor a successful load yields: the decoded pixels,
/// resampled when a resize target was given, in channel-first order.
pub open spec fn loaded_tensor_data(bytes: Seq<u8>, resize_longest: Option<usize>) -> Seq<u8> {
    let d = rgb8_decode(bytes)->0;
    match resize_longest {
        None => chw(d.2, d.0, d.1),
        Some(t) => {
            let (nh, nw) = resized_dims(d.0, d.1, t as nat);
            chw(catmull_rom_resample(d.2, d.0, d.1, nh, nw), nh, nw)
        },
    }
}

/// Decode an image from bytes, optionally resize it so that its longest side
/// is exactly `resize_longest`, and return the channel-first tensor together
/// with the original (pre-resize) height and width.
pub fn load_image(bytes: &Vec<u8>, resize_longest: Option<usize>) -> (r: Result<
    (ImageTensor, usize, usize),
    ImageError,
>)
    requires
        resize_longest matches Some(t) ==> t as int <= u32::MAX as int,
        resize_longest matches Some(t) ==> 3 * (t as int) * (t as int) <= usize::MAX as int,
    ensures
        r is Ok <==> image_load_ok(bytes@, resize_longest),
        r matches Ok(out) ==> {
            &&& rgb8_decode(bytes@) matches Some(d) && out.1 == d.0 && out.2 == d.1
            &&& (out.0.height as nat, out.0.width as nat) == loaded_tensor_dims(
                bytes@,
                resize_longest,
            )
            &&& out.0.data@ == loaded_tensor_data(bytes@, resize_longest)
            &&& out.0.wf()
        },
        r matches Err(e) ==> (e is Decode <==> rgb8_decode(bytes@) is None),
{
    let raw = match decode_rgb8(bytes) {
        Ok(raw) => raw,
        Err(e) => {
            return Err(e);
        },
    };
    let initial_h: usize = raw.height;
    let initial_w: usize = raw.width;
    match resize_longest {
        None => {
            let t = to_channel_first(&raw);
            Ok((t, initial_h, initial_w))
        },
        Some(target) => {
            if raw.height == 0 || raw.width == 0 {
                return Err(ImageError::InvalidDimensions);
            }
            let dims = resize_dims(raw.height, raw.width, target);
            let nh: usize = dims.0;
            let nw: usize = dims.1;
            if nh == 0 || nw == 0 {
                return Err(ImageError::InvalidDimensions);
            }
            proof {
                assert(3 * (nh as int) * (nw as int) <= 3 * (target as int) * (target as int))
                    by (nonlinear_arith)
                    requires 0 <= nh <= target, 0 <= nw <= target;
            }
            let resized = resize_catmull_rom(&raw, nh, nw);
            let t = to_channel_first(&resized);
            Ok((t, initial_h, initial_w))
        },
    }
}

} // verus!
