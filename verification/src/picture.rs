//! Decoded images as the transformations handle them: shrunk until small
//! enough, and cut into halves.

use image::imageops::FilterType;
use image::{DynamicImage, GenericImageView};
use vstd::prelude::*;
use crate::transform::{
    lemma_resize_target_shrinks, spec_resize_target, spec_split_crops, split_left_suffix,
    split_right_suffix, Crop, SplitPlan, Transform, MAX_PIXELS,
};

verus! {

#[verifier::external_type_specification]
#[verifier::external_body]
pub struct ExDynamicImage(DynamicImage);

/// A decoded image together with its width and height in pixels. The size
/// is read from the image by `image`'s `dimensions` whenever a picture is
/// made, so it is the image's own size.
pub struct Picture {
    image: DynamicImage,
    width: u32,
    height: u32,
    /// For a cut-out: the picture's image it was cut from, and where its
    /// top-left pixel lies in that image.
    cut: Ghost<Option<(DynamicImage, u32, u32)>>,
    /// The resizes that made the picture, oldest first: for each, the image
    /// that was resized and the bounds it was resized to fit.
    resizes: Ghost<Seq<(DynamicImage, u32, u32)>>,
}

/// Why a picture cannot be shrunk.
#[derive(Clone, Copy, Debug, PartialEq, Eq, Structural)]
pub enum PictureError {
    /// The pixel count does not fit in 32 bits.
    AreaOverflow,
}

/// The size `image` gives an image of `width` x `height` resized to fit
/// `nwidth` x `nheight` with its aspect ratio kept (computed from these four
/// numbers alone).
pub uninterp spec fn resized_dimensions(width: u32, height: u32, nwidth: u32, nheight: u32) -> (u32, u32);

/// Measures an image: `GenericImageView::dimensions` of `image`'s
/// `DynamicImage`. The contract claims only that the image is kept as it is
/// and is neither a cut-out nor resized; its size is not stated (the
/// image's pixels are opaque here).
#[verifier::external_body]
fn measure(image: DynamicImage) -> (r: Picture)
    ensures
        r.image == image,
        r.cut@ is None,
        r.resizes@ == Seq::<(DynamicImage, u32, u32)>::empty(),
{
    let (width, height) = image.dimensions();
    Picture { image, width, height, cut: Ghost(None), resizes: Ghost(Seq::empty()) }
}

/// `DynamicImage::resize` with the Catmull-Rom filter, then the new image
/// measured. The new size is `resized_dimensions` of the old size and the
/// bounds; as `image`'s source computes it, it fits within `nwidth` x
/// `nheight`, reaches one of the two bounds, and both sides are at least 1.
/// The new picture records that it is `p`'s image resized to these bounds.
/// Zero sizes are left out.
#[verifier::external_body]
fn resize_within(p: &Picture, nwidth: u32, nheight: u32) -> (r: Picture)
    requires
        p.width >= 1,
        p.height >= 1,
        nwidth >= 1,
        nheight >= 1,
    ensures
        (r.width, r.height) == resized_dimensions(p.width, p.height, nwidth, nheight),
        1 <= r.width <= nwidth,
        1 <= r.height <= nheight,
        r.width == nwidth || r.height == nheight,
        r.cut@ is None,
        r.resizes@ == p.resizes@.push((p.image, nwidth, nheight)),
{
    let image = p.image.resize(nwidth, nheight, FilterType::CatmullRom);
    let (width, height) = image.dimensions();
    Picture { image, width, height, cut: Ghost(None), resizes: Ghost(p.resizes@.push((p.image, nwidth, nheight))) }
}

/// `DynamicImage::crop_imm`: the cut-out of `p` delimited by the rectangle,
/// then measured. The contract claims what `image`'s source gives the
/// cut-out: the rectangle clamped to the image, taken from `p`'s image at the
/// clamped corner.
#[verifier::external_body]
fn crop_within(p: &Picture, c: Crop) -> (r: Picture)
    ensures
        r.width == clamp_len(c.x, c.width, p.width),
        r.height == clamp_len(c.y, c.height, p.height),
        r.cut@ == Some((p.image, clamp_start(c.x, p.width), clamp_start(c.y, p.height))),
        r.resizes@ == Seq::<(DynamicImage, u32, u32)>::empty(),
{
    let image = p.image.crop_imm(c.x, c.y, c.width, c.height);
    let (width, height) = image.dimensions();
    let cut = Ghost(Some((p.image, clamp_start(c.x, p.width), clamp_start(c.y, p.height))));
    Picture { image, width, height, cut, resizes: Ghost(Seq::empty()) }
}

/// A rectangle's start clamped to `[0, total]`.
pub open spec fn clamp_start(start: u32, total: u32) -> u32 {
    if start <= total { start } else { total }
}

/// The length of the part of `[start, start + len)` inside `[0, total)`,
/// with `start` first clamped to `total`.
pub open spec fn clamp_len(start: u32, len: u32, total: u32) -> u32 {
    let s = clamp_start(start, total);
    if len <= total - s { len } else { (total - s) as u32 }
}

/// The pixel count of a size.
pub open spec fn area(size: (u32, u32)) -> nat {
    size.0 as nat * size.1 as nat
}

/// One shrinking pass: the size `image` gives when resizing to
/// `spec_resize_target`; a size that needs no shrinking stays.
pub open spec fn shrink_step(size: (u32, u32)) -> (u32, u32) {
    match spec_resize_target(size.0 as nat, size.1 as nat) {
        Some((w, h)) => resized_dimensions(size.0, size.1, w as u32, h as u32),
        None => size,
    }
}

/// The size after `n` shrinking passes.
pub open spec fn shrink_passes(size: (u32, u32), n: nat) -> (u32, u32)
    decreases n,
{
    if n == 0 {
        size
    } else {
        shrink_passes(shrink_step(size), (n - 1) as nat)
    }
}

/// The size shrinking stops at: the first of the passes that holds at most
/// `MAX_PIXELS` pixels.
pub open spec fn is_shrunk_size(start: (u32, u32), end: (u32, u32)) -> bool {
    exists|k: nat| {
        &&& #[trigger] shrink_passes(start, k) == end
        &&& area(end) <= MAX_PIXELS
        &&& forall|j: nat| j < k ==> area(#[trigger] shrink_passes(start, j)) > MAX_PIXELS
    }
}

/// One more pass after `n` passes.
pub proof fn lemma_shrink_passes_succ(size: (u32, u32), n: nat)
    ensures
        shrink_passes(size, n + 1) == shrink_step(shrink_passes(size, n)),
    decreases n,
{
    if n > 0 {
        lemma_shrink_passes_succ(shrink_step(size), (n - 1) as nat);
        assert(shrink_passes(size, n) == shrink_passes(shrink_step(size), (n - 1) as nat));
        assert(shrink_passes(size, n + 1) == shrink_passes(shrink_step(size), n));
    } else {
        assert(shrink_passes(size, 1) == shrink_passes(shrink_step(size), 0));
    }
}

/// The bounds one shrinking pass resizes an image of this size to fit.
pub open spec fn pass_bounds(size: (u32, u32)) -> (u32, u32) {
    match spec_resize_target(size.0 as nat, size.1 as nat) {
        Some((w, h)) => (w as u32, h as u32),
        None => size,
    }
}

/// `p` is `orig` shrunk in `k >= 1` passes: `p` adds `k` resizes to those of
/// `orig`, the first of `orig`'s own image, the `j`-th to the bounds of the
/// `j`-th pass, and `p` has the size the `k` passes give; `p` is no cut-out.
pub open spec fn shrunk_by_resizing(orig: Picture, p: Picture) -> bool {
    let n = orig.spec_resizes().len();
    let k = p.spec_resizes().len() - n;
    &&& p.spec_cut() is None
    &&& k >= 1
    &&& p.spec_resizes().subrange(0, n as int) == orig.spec_resizes()
    &&& p.spec_resizes()[n as int].0 == orig.spec_image()
    &&& forall|j: int| 0 <= j < k ==> {
        let step = #[trigger] p.spec_resizes()[n + j];
        (step.1, step.2) == pass_bounds(shrink_passes(orig.spec_size(), j as nat))
    }
    &&& p.spec_size() == shrink_passes(orig.spec_size(), k as nat)
}

impl Picture {
    pub closed spec fn spec_image(&self) -> DynamicImage {
        self.image
    }

    pub closed spec fn spec_width(&self) -> u32 {
        self.width
    }

    pub closed spec fn spec_height(&self) -> u32 {
        self.height
    }

    pub open spec fn spec_size(&self) -> (u32, u32) {
        (self.spec_width(), self.spec_height())
    }

    /// For a cut-out: the image it was cut from and the position of its
    /// top-left pixel there.
    pub closed spec fn spec_cut(&self) -> Option<(DynamicImage, u32, u32)> {
        self.cut@
    }

    /// The resizes that made the picture, oldest first: the image resized
    /// and the bounds it was resized to fit.
    pub closed spec fn spec_resizes(&self) -> Seq<(DynamicImage, u32, u32)> {
        self.resizes@
    }

    /// A picture of a decoded image.
    pub fn new(image: DynamicImage) -> (r: Picture)
        ensures
            r.spec_image() == image,
            r.spec_cut() is None,
            r.spec_resizes() == Seq::<(DynamicImage, u32, u32)>::empty(),
    {
        measure(image)
    }

    pub fn width(&self) -> (r: u32)
        ensures
            r == self.spec_width(),
    {
        self.width
    }

    pub fn height(&self) -> (r: u32)
        ensures
            r == self.spec_height(),
    {
        self.height
    }

    /// The decoded image.
    pub fn into_image(self) -> (r: DynamicImage)
        ensures
            r == self.spec_image(),
    {
        self.image
    }

    /// Shrinks the picture in passes: each pass resizes it to fit
    /// `Transform::resize_target` of its size (90% of each side, rounded), until
    /// it holds at most `MAX_PIXELS` pixels. A picture that is already small
    /// enough comes back unchanged; a larger one comes back as its own image
    /// resized pass after pass; one whose pixel count does not fit in 32 bits
    /// is refused.
    pub fn shrink(self) -> (r: Result<Picture, PictureError>)
        ensures
            match r {
                Err(e) => e == PictureError::AreaOverflow
                    && self.spec_width() * self.spec_height() > u32::MAX,
                Ok(p) => {
                    &&& self.spec_width() * self.spec_height() <= u32::MAX
                    &&& is_shrunk_size(self.spec_size(), p.spec_size())
                    &&& p.spec_width() * p.spec_height() <= MAX_PIXELS
                    &&& p.spec_width() <= self.spec_width()
                    &&& p.spec_height() <= self.spec_height()
                    &&& self.spec_width() * self.spec_height() <= MAX_PIXELS ==> p == self
                    &&& self.spec_width() * self.spec_height() > MAX_PIXELS ==> shrunk_by_resizing(self, p)
                },
            },
    {
        let w0 = self.width;
        let h0 = self.height;
        let ghost size0 = (w0, h0);
        assert((w0 as u64) * (h0 as u64) <= 0xffff_ffff * 0xffff_ffffu64) by (nonlinear_arith)
            requires w0 <= 0xffff_ffffu32, h0 <= 0xffff_ffffu32;
        if (w0 as u64) * (h0 as u64) > u32::MAX as u64 {
            return Err(PictureError::AreaOverflow);
        }
        if (w0 as u64) * (h0 as u64) <= MAX_PIXELS as u64 {
            assert(shrink_passes(size0, 0) == size0);
            assert(area(size0) == w0 * h0);
            return Ok(self);
        }
        let ghost orig = self;
        let ghost n = self.resizes@.len();
        let mut pic = self;
        let ghost mut k: nat = 0;
        loop
            invariant
                pic.width <= w0,
                pic.height <= h0,
                w0 * h0 <= u32::MAX,
                w0 * h0 > MAX_PIXELS,
                size0 == orig.spec_size(),
                orig.width == w0 && orig.height == h0,
                n == orig.spec_resizes().len(),
                (pic.width, pic.height) == shrink_passes(size0, k),
                forall|j: nat| j < k ==> area(#[trigger] shrink_passes(size0, j)) > MAX_PIXELS,
                pic.resizes@.len() == n + k,
                pic.resizes@.subrange(0, n as int) == orig.spec_resizes(),
                k == 0 ==> pic == orig,
                k >= 1 ==> pic.cut@ is None && pic.resizes@[n as int].0 == orig.spec_image(),
                forall|j: int| 0 <= j < k ==> {
                    let step = #[trigger] pic.resizes@[n + j];
                    (step.1, step.2) == pass_bounds(shrink_passes(size0, j as nat))
                },
            ensures
                pic.width <= w0,
                pic.height <= h0,
                (pic.width, pic.height) == shrink_passes(size0, k),
                area((pic.width, pic.height)) <= MAX_PIXELS,
                forall|j: nat| j < k ==> area(#[trigger] shrink_passes(size0, j)) > MAX_PIXELS,
                pic.resizes@.len() == n + k,
                pic.resizes@.subrange(0, n as int) == orig.spec_resizes(),
                k >= 1,
                pic.cut@ is None && pic.resizes@[n as int].0 == orig.spec_image(),
                forall|j: int| 0 <= j < k ==> {
                    let step = #[trigger] pic.resizes@[n + j];
                    (step.1, step.2) == pass_bounds(shrink_passes(size0, j as nat))
                },
            decreases pic.width * pic.height,
        {
            assert(pic.width * pic.height <= w0 * h0) by (nonlinear_arith)
                requires pic.width <= w0, pic.height <= h0;
            match Transform::resize_target(pic.width, pic.height) {
                None => {
                    proof {
                        if k == 0 {
                            assert(pic.width == w0 && pic.height == h0);
                            assert(area((pic.width, pic.height)) == w0 * h0);
                        }
                    }
                    break;
                },
                Some((nw, nh)) => {
                    let ghost (w, h) = (pic.width as nat, pic.height as nat);
                    proof {
                        lemma_resize_target_shrinks(w, h);
                        lemma_shrink_passes_succ(size0, k);
                    }
                    let next = resize_within(&pic, nw, nh);
                    assert(next.width * next.height <= nw * nh) by (nonlinear_arith)
                        requires next.width <= nw, next.height <= nh;
                    proof {
                        assert(pass_bounds(shrink_passes(size0, k)) == (nw, nh));
                        assert(next.resizes@.subrange(0, n as int) =~= pic.resizes@.subrange(0, n as int));
                        assert forall|j: int| 0 <= j < k + 1 implies {
                            let step = #[trigger] next.resizes@[n + j];
                            (step.1, step.2) == pass_bounds(shrink_passes(size0, j as nat))
                        } by {
                            if j < k {
                                assert(next.resizes@[n + j] == pic.resizes@[n + j]);
                            }
                        }
                        assert forall|j: nat| j < k + 1 implies area(#[trigger] shrink_passes(size0, j)) > MAX_PIXELS by {
                            if j == k {
                                assert(area(shrink_passes(size0, k)) == w * h);
                            }
                        }
                        k = k + 1;
                    }
                    pic = next;
                },
            }
        }
        assert(pic.spec_size() == shrink_passes(size0, k));
        assert(area((pic.width, pic.height)) == pic.width * pic.height);
        Ok(pic)
    }

    /// Cuts a landscape picture stored at `p` into its left and right halves
    /// (as `Transform::split_plan` lays them out), each of the planned size;
    /// any other picture is not cut (`None`).
    pub fn split(&self, p: &str) -> (r: Option<(Picture, Picture, SplitPlan)>)
        ensures
            match r {
                None => spec_split_crops(self.spec_width(), self.spec_height()) is None,
                Some((left, right, plan)) => {
                    &&& spec_split_crops(self.spec_width(), self.spec_height()) == Some((plan.left, plan.right))
                    &&& plan.left_path@ == p@ + split_left_suffix()
                    &&& plan.right_path@ == p@ + split_right_suffix()
                    &&& left.spec_width() == plan.left.width && left.spec_height() == plan.left.height
                    &&& left.spec_cut() == Some((self.spec_image(), plan.left.x, plan.left.y))
                    &&& right.spec_width() == plan.right.width && right.spec_height() == plan.right.height
                    &&& right.spec_cut() == Some((self.spec_image(), plan.right.x, plan.right.y))
                },
            },
    {
        match Transform::split_plan(p, self.width, self.height) {
            None => None,
            Some(plan) => {
                let left = crop_within(self, plan.left);
                let right = crop_within(self, plan.right);
                Some((left, right, plan))
            },
        }
    }
}

} // verus!
