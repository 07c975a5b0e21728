use vstd::prelude::*;

use crate::color::{blend_with_white, blended, Rgba, Tolerance};
use crate::quantize::{Cell, Pixel};
use crate::sequence::{compile, compile_model, Instruction};

verus! {

/// A straight-alpha RGBA image: `width * height` pixels in row-major order,
/// four bytes each.
pub struct RgbaImage {
    pub width: u32,
    pub height: u32,
    pub data: Vec<u8>,
}

impl RgbaImage {
    pub open spec fn wf(&self) -> bool {
        self.data@.len() == 4 * self.width * self.height
    }
}

pub open spec fn rgba_at(data: Seq<u8>, i: int) -> Rgba {
    Rgba { r: data[4 * i], g: data[4 * i + 1], b: data[4 * i + 2], a: data[4 * i + 3] }
}

/// Pixel `i` of a row-major image `width` cells wide.
pub open spec fn pixel_at(width: u32, data: Seq<u8>, i: int) -> Pixel {
    Pixel {
        cell: Cell { x: (i % width as int) as u32, y: (i / width as int) as u32 },
        color: blended(rgba_at(data, i)),
    }
}

/// The image's pixels in scan order, composited onto white.
pub open spec fn grid_pixels_model(width: u32, height: u32, data: Seq<u8>) -> Seq<Pixel> {
    Seq::new((width * height) as nat, |i: int| pixel_at(width, data, i))
}

/// The result of `image::imageops::resize` with the Gaussian filter on the
/// given RGBA buffer.
pub uninterp spec fn resampled(width: u32, height: u32, data: Seq<u8>, new_width: u32, new_height: u32) -> Seq<u8>;

/// Relies on `image::imageops::resize` with `FilterType::Gaussian`: it returns
/// an image of exactly the requested dimensions, computed from the source
/// pixels and the dimensions alone. The bounds keep its intermediate `f32`
/// buffers within what a `Vec` can allocate.
#[verifier::external_body]
fn resample_rgba(width: u32, height: u32, data: &Vec<u8>, new_width: u32, new_height: u32) -> (r: Vec<u8>)
    requires
        data@.len() == 4 * width * height,
        16 * width * new_height <= isize::MAX,
        16 * new_width * new_height <= isize::MAX,
    ensures
        r@ == resampled(width, height, data@, new_width, new_height),
        r@.len() == 4 * new_width * new_height,
{
    let src = image::RgbaImage::from_raw(width, height, data.clone()).unwrap();
    image::imageops::resize(&src, new_width, new_height, image::imageops::FilterType::Gaussian).into_raw()
}

proof fn lemma_index_in_grid(i: int, width: int, height: int)
    requires
        0 <= i < width * height,
        width > 0,
    ensures
        0 <= i % width < width,
        0 <= i / width < height,
        4 * i + 3 < 4 * width * height,
{
    assert(0 <= i / width < height) by (nonlinear_arith)
        requires
            0 <= i < width * height,
            width > 0,
    ;
    assert(0 <= i % width < width) by (nonlinear_arith)
        requires
            width > 0,
    ;
    assert(4 * i + 3 < 4 * width * height) by (nonlinear_arith)
        requires
            0 <= i < width * height,
    ;
}

/// Reads the image's pixels in scan order, each tagged with its cell and
/// composited onto white (`None` where fully transparent).
pub fn grid_pixels(img: &RgbaImage) -> (r: Vec<Pixel>)
    requires
        img.wf(),
    ensures
        r@ == grid_pixels_model(img.width, img.height, img.data@),
{
    let len: usize = img.data.len();
    let n: usize = len / 4;
    proof {
        let wh = img.width * img.height;
        assert(img.data@.len() / 4 == wh) by (nonlinear_arith)
            requires
                img.data@.len() == 4 * img.width * img.height,
                wh == img.width * img.height,
        ;
    }
    let mut out: Vec<Pixel> = Vec::new();
    let mut i: usize = 0;
    while i < n
        invariant
            img.wf(),
            n == img.width * img.height,
            len == img.data@.len(),
            i <= n,
            out@ == Seq::new(i as nat, |k: int| pixel_at(img.width, img.data@, k)),
        decreases n - i,
    {
        proof {
            assert(img.width > 0) by (nonlinear_arith)
                requires
                    0 <= i < img.width * img.height,
            ;
            lemma_index_in_grid(i as int, img.width as int, img.height as int);
            assert(4 * i + 3 < img.data@.len());
        }
        let w = img.width as usize;
        let x = (i % w) as u32;
        let y = (i / w) as u32;
        let p = Rgba { r: img.data[4 * i], g: img.data[4 * i + 1], b: img.data[4 * i + 2], a: img.data[4 * i + 3] };
        out.push(Pixel { cell: Cell { x, y }, color: blend_with_white(p) });
        proof {
            assert(out@ =~= Seq::new((i + 1) as nat, |k: int| pixel_at(img.width, img.data@, k)));
        }
        i = i + 1;
    }
    proof {
        assert(out@ =~= grid_pixels_model(img.width, img.height, img.data@));
    }
    out
}

/// The instruction stream for an image already at grid resolution.
pub open spec fn compile_image_model(img: RgbaImage, tol: Tolerance, limit: nat) -> Seq<Instruction> {
    compile_model(grid_pixels_model(img.width, img.height, img.data@), img.width, img.height, tol, limit)
}

/// Compiles an image that is already at grid resolution.
pub fn compile_image(img: &RgbaImage, tol: Tolerance, color_limit: usize) -> (r: Vec<Instruction>)
    requires
        img.wf(),
        img.width >= 1,
        img.height >= 1,
    ensures
        r@ == compile_image_model(*img, tol, color_limit as nat),
{
    let pixels = grid_pixels(img);
    compile(&pixels, img.width, img.height, tol, color_limit)
}

/// The drawing grid's dimensions are within what a frame can be resampled to.
pub open spec fn grid_fits(src_width: u32, width: u32, height: u32) -> bool {
    &&& width >= 1
    &&& height >= 1
    &&& 16 * src_width * height <= isize::MAX
    &&& 16 * width * height <= isize::MAX
}

/// The instruction stream for a frame resampled onto a `width` by `height` grid.
pub open spec fn compile_frame_model(
    frame: RgbaImage,
    width: u32,
    height: u32,
    tol: Tolerance,
    limit: nat,
) -> Seq<Instruction> {
    compile_model(
        grid_pixels_model(width, height, resampled(frame.width, frame.height, frame.data@, width, height)),
        width,
        height,
        tol,
        limit,
    )
}

/// Resamples a frame onto the `width` by `height` drawing grid and compiles it
/// from scratch.
pub fn compile_frame(frame: &RgbaImage, width: u32, height: u32, tol: Tolerance, color_limit: usize) -> (r: Vec<
    Instruction,
>)
    requires
        frame.wf(),
        grid_fits(frame.width, width, height),
    ensures
        r@ == compile_frame_model(*frame, width, height, tol, color_limit as nat),
{
    let data = resample_rgba(frame.width, frame.height, &frame.data, width, height);
    let grid = RgbaImage { width, height, data };
    compile_image(&grid, tol, color_limit)
}

/// Compiles every frame of an animation independently, each resampled onto the
/// same grid; nothing is carried over from one frame to the next.
pub fn compile_animation(frames: &Vec<RgbaImage>, width: u32, height: u32, tol: Tolerance, color_limit: usize) -> (r: Vec<
    Vec<Instruction>,
>)
    requires
        forall|i: int|
            0 <= i < frames@.len() ==> (#[trigger] frames@[i]).wf() && grid_fits(frames@[i].width, width, height),
    ensures
        r@.len() == frames@.len(),
        forall|i: int|
            0 <= i < frames@.len() ==> (#[trigger] r@[i])@ == compile_frame_model(
                frames@[i],
                width,
                height,
                tol,
                color_limit as nat,
            ),
{
    let mut out: Vec<Vec<Instruction>> = Vec::new();
    let mut i: usize = 0;
    while i < frames.len()
        invariant
            i <= frames@.len(),
            forall|k: int|
                0 <= k < frames@.len() ==> (#[trigger] frames@[k]).wf() && grid_fits(frames@[k].width, width, height),
            out@.len() == i,
            forall|k: int|
                0 <= k < i ==> (#[trigger] out@[k])@ == compile_frame_model(
                    frames@[k],
                    width,
                    height,
                    tol,
                    color_limit as nat,
                ),
        decreases frames@.len() - i,
    {
        let stream = compile_frame(&frames[i], width, height, tol, color_limit);
        out.push(stream);
        i = i + 1;
    }
    out
}

} // verus!
