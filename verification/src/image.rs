use std::sync::Arc;

use vstd::prelude::*;

use crate::geometry::{Rect, Size};
use crate::text::{append_decimal, decimal_chars};
use vstd::string::StringExecFns;

verus! {

/// Maximum decoded byte length accepted for one image.
pub const MAX_IMAGE_BYTES: usize = 67108864;

/// Maximum total decoded source bytes referenced by one image scene.
pub const MAX_IMAGE_SCENE_BYTES: usize = 268435456;

/// Maximum number of placements in one image scene.
pub const MAX_IMAGE_PLACEMENTS: usize = 4096;

/// Stable process-local identity for immutable image pixels.
#[derive(Clone, Copy, Debug, PartialEq, Eq, Structural, Hash)]
pub struct ImageId(pub u64);

impl ImageId {
    /// Returns the numeric process-local identity.
    pub fn get(self) -> (r: u64)
        ensures
            r == self.0,
    {
        self.0
    }
}

/// Failure to construct decoded RGBA image data.
#[derive(Clone, Debug, PartialEq, Eq, Structural)]
pub enum ImageError {
    /// At least one pixel dimension is zero.
    Empty,
    /// Pixel dimensions cannot be represented as an RGBA byte length.
    SizeOverflow,
    /// The supplied byte length does not equal `width * height * 4`.
    LengthMismatch { expected: usize, actual: usize },
    /// The decoded image exceeds the renderer's per-image safety limit.
    TooLarge { bytes: usize, maximum: usize },
}

/// Failure to add a placement to a renderer-created image scene.
#[derive(Clone, Debug, PartialEq, Eq, Structural)]
pub enum ImageSceneError {
    /// The scene contains too many placements.
    TooManyPlacements { maximum: usize },
    /// Unique decoded sources in the scene exceed the safety limit.
    TooLarge { bytes: usize, maximum: usize },
}

impl ImageError {
    /// Human-readable description.
    pub open spec fn text_spec(&self) -> Seq<char> {
        match *self {
            ImageError::Empty => "image dimensions must be nonzero"@,
            ImageError::SizeOverflow => "image dimensions overflow its byte length"@,
            ImageError::LengthMismatch { expected, actual } => "image requires "@ + decimal_chars(
                expected as nat,
            ) + " RGBA bytes but received "@ + decimal_chars(actual as nat),
            ImageError::TooLarge { bytes, maximum } => "image contains "@ + decimal_chars(
                bytes as nat,
            ) + " bytes, exceeding the "@ + decimal_chars(maximum as nat) + "-byte limit"@,
        }
    }

    /// Returns the human-readable description.
    pub fn text(&self) -> (r: String)
        ensures
            r@ == self.text_spec(),
    {
        match *self {
            ImageError::Empty => String::from_str("image dimensions must be nonzero"),
            ImageError::SizeOverflow => String::from_str("image dimensions overflow its byte length"),
            ImageError::LengthMismatch { expected, actual } => {
                let mut s = String::from_str("image requires ");
                append_decimal(&mut s, expected as u64);
                s.append(" RGBA bytes but received ");
                append_decimal(&mut s, actual as u64);
                s
            },
            ImageError::TooLarge { bytes, maximum } => {
                let mut s = String::from_str("image contains ");
                append_decimal(&mut s, bytes as u64);
                s.append(" bytes, exceeding the ");
                append_decimal(&mut s, maximum as u64);
                s.append("-byte limit");
                s
            },
        }
    }
}

impl ImageSceneError {
    /// Human-readable description.
    pub open spec fn text_spec(&self) -> Seq<char> {
        match *self {
            ImageSceneError::TooManyPlacements { maximum } => "image scene exceeds the "@
                + decimal_chars(maximum as nat) + "-placement limit"@,
            ImageSceneError::TooLarge { bytes, maximum } => "image scene references "@
                + decimal_chars(bytes as nat) + " decoded bytes, exceeding the "@ + decimal_chars(
                maximum as nat,
            ) + "-byte limit"@,
        }
    }

    /// Returns the human-readable description.
    pub fn text(&self) -> (r: String)
        ensures
            r@ == self.text_spec(),
    {
        match *self {
            ImageSceneError::TooManyPlacements { maximum } => {
                let mut s = String::from_str("image scene exceeds the ");
                append_decimal(&mut s, maximum as u64);
                s.append("-placement limit");
                s
            },
            ImageSceneError::TooLarge { bytes, maximum } => {
                let mut s = String::from_str("image scene references ");
                append_decimal(&mut s, bytes as u64);
                s.append(" decoded bytes, exceeding the ");
                append_decimal(&mut s, maximum as u64);
                s.append("-byte limit");
                s
            },
        }
    }
}

/// Calls `std::hash::RandomState::new`, which std documents as initialized
/// with random keys. Nothing is promised of the keys.
#[verifier::external_body]
fn random_state() -> std::hash::RandomState {
    std::hash::RandomState::new()
}

/// Calls `BuildHasher::hash_one` on a freshly keyed `RandomState`. The value
/// depends on the random keys, so nothing is promised of it.
#[verifier::external_body]
fn hash_unit(state: &std::hash::RandomState) -> u64 {
    std::hash::BuildHasher::hash_one(state, ())
}

/// Draws an identity for a newly created image: never zero.
fn next_image_id() -> (r: ImageId)
    ensures
        r.0 != 0,
{
    let state = random_state();
    let value = hash_unit(&state);
    if value == 0 {
        ImageId(1)
    } else {
        ImageId(value)
    }
}

/// Number of RGBA bytes that `width` by `height` pixels occupy.
pub open spec fn rgba_len(width: u32, height: u32) -> int {
    width * height * 4
}

/// The outcome that image construction owes for the given dimensions and
/// byte length, when it fails.
pub open spec fn rgba_error(width: u32, height: u32, length: nat) -> Option<ImageError> {
    if width == 0 || height == 0 {
        Some(ImageError::Empty)
    } else if rgba_len(width, height) > usize::MAX {
        Some(ImageError::SizeOverflow)
    } else if rgba_len(width, height) > MAX_IMAGE_BYTES {
        Some(
            ImageError::TooLarge {
                bytes: rgba_len(width, height) as usize,
                maximum: MAX_IMAGE_BYTES,
            },
        )
    } else if length != rgba_len(width, height) {
        Some(
            ImageError::LengthMismatch {
                expected: rgba_len(width, height) as usize,
                actual: length as usize,
            },
        )
    } else {
        None
    }
}

/// Calls `Arc::clone`, which std documents as producing another pointer to
/// the same allocation, so the shared value is unchanged.
#[verifier::external_body]
pub(crate) fn share<T>(shared: &Arc<T>) -> (r: Arc<T>)
    ensures
        r == *shared,
{
    Arc::clone(shared)
}

/// Immutable decoded 8-bit sRGB RGBA pixels.
///
/// Clones share the pixel allocation and retain the same [`ImageId`].
#[derive(Debug)]
pub struct RgbaImage {
    id: ImageId,
    width: u32,
    height: u32,
    pixels: Arc<Vec<u8>>,
}

impl RgbaImage {
    /// Identity of the image.
    pub closed spec fn id_spec(&self) -> ImageId {
        self.id
    }

    /// Pixel width.
    pub closed spec fn width_spec(&self) -> u32 {
        self.width
    }

    /// Pixel height.
    pub closed spec fn height_spec(&self) -> u32 {
        self.height
    }

    /// Row-major RGBA bytes.
    pub closed spec fn pixels_spec(&self) -> Seq<u8> {
        self.pixels@
    }


    /// Every image is nonempty, within the byte limit, and holds exactly
    /// four bytes per pixel.
    pub open spec fn wf(&self) -> bool {
        &&& self.id_spec().0 != 0
        &&& self.width_spec() > 0
        &&& self.height_spec() > 0
        &&& self.pixels_spec().len() == rgba_len(self.width_spec(), self.height_spec())
        &&& self.pixels_spec().len() <= MAX_IMAGE_BYTES
    }

    #[verifier::type_invariant]
    pub open spec fn inv(self) -> bool {
        self.wf()
    }

    /// Creates validated row-major RGBA image data.
    pub fn new(width: u32, height: u32, pixels: Vec<u8>) -> (r: Result<Self, ImageError>)
        ensures
            rgba_error(width, height, pixels@.len()) matches Some(e) ==> r == Err::<Self, _>(e),
            rgba_error(width, height, pixels@.len()) is None ==> (r matches Ok(image) && {
                &&& image.wf()
                &&& image.width_spec() == width
                &&& image.height_spec() == height
                &&& image.pixels_spec() == pixels@
            }),
    {
        if width == 0 || height == 0 {
            return Err(ImageError::Empty);
        }
        assert(width as int * height as int <= 0xffff_ffffu64 as int * 0xffff_ffffu64 as int)
            by (nonlinear_arith)
            requires
                width <= 0xffff_ffffu32,
                height <= 0xffff_ffffu32,
        ;
        let area = width as u64 * height as u64;
        if area > u64::MAX / 4 {
            return Err(ImageError::SizeOverflow);
        }
        let bytes = area * 4;
        if bytes > usize::MAX as u64 {
            return Err(ImageError::SizeOverflow);
        }
        let expected = bytes as usize;
        if expected > MAX_IMAGE_BYTES {
            return Err(ImageError::TooLarge { bytes: expected, maximum: MAX_IMAGE_BYTES });
        }
        if pixels.len() != expected {
            return Err(ImageError::LengthMismatch { expected, actual: pixels.len() });
        }
        Ok(RgbaImage { id: next_image_id(), width, height, pixels: Arc::new(pixels) })
    }

    /// Returns this immutable source's process-local identity.
    pub fn id(&self) -> (r: ImageId)
        ensures
            r == self.id_spec(),
    {
        self.id
    }

    /// Returns the pixel width.
    pub fn width(&self) -> (r: u32)
        ensures
            r == self.width_spec(),
    {
        self.width
    }

    /// Returns the pixel height.
    pub fn height(&self) -> (r: u32)
        ensures
            r == self.height_spec(),
    {
        self.height
    }

    /// Returns the row-major RGBA bytes.
    pub fn pixels(&self) -> (r: &[u8])
        ensures
            r@ == self.pixels_spec(),
    {
        self.pixels.as_slice()
    }
}

impl Clone for RgbaImage {
    fn clone(&self) -> (r: Self)
        ensures
            r == *self,
    {
        proof {
            use_type_invariant(self);
        }
        RgbaImage { id: self.id, width: self.width, height: self.height, pixels: share(&self.pixels) }
    }
}

impl PartialEq for RgbaImage {
    fn eq(&self, other: &Self) -> (r: bool) {
        self.id == other.id
    }
}

impl vstd::std_specs::cmp::PartialEqSpecImpl for RgbaImage {
    open spec fn obeys_eq_spec() -> bool {
        true
    }

    open spec fn eq_spec(&self, other: &Self) -> bool {
        self.id_spec() == other.id_spec()
    }
}

/// A rectangular source region measured in pixels.
#[derive(Clone, Copy, Debug, PartialEq, Eq, Structural, Hash)]
pub struct PixelRect {
    pub x: u32,
    pub y: u32,
    pub width: u32,
    pub height: u32,
}

impl PixelRect {
    /// Creates a pixel rectangle.
    pub fn new(x: u32, y: u32, width: u32, height: u32) -> (r: Self)
        ensures
            r == (PixelRect { x, y, width, height }),
    {
        PixelRect { x, y, width, height }
    }
}

/// One image source mapped into a terminal-cell rectangle.
#[derive(Debug)]
pub struct ImagePlacement {
    image: RgbaImage,
    destination: Rect,
    source: PixelRect,
}

impl ImagePlacement {
    /// The image source.
    pub closed spec fn image_spec(&self) -> RgbaImage {
        self.image
    }

    /// The destination in terminal cells.
    pub closed spec fn destination_spec(&self) -> Rect {
        self.destination
    }

    /// The source region in pixels.
    pub closed spec fn source_spec(&self) -> PixelRect {
        self.source
    }

    /// A placement always shows its complete image.
    #[verifier::type_invariant]
    pub open spec fn inv(self) -> bool {
        self.source_spec() == (PixelRect {
            x: 0,
            y: 0,
            width: self.image_spec().width_spec(),
            height: self.image_spec().height_spec(),
        })
    }

    /// Whether two placements show the same image region at the same place.
    pub open spec fn same(&self, other: &Self) -> bool {
        &&& self.image_spec().id_spec() == other.image_spec().id_spec()
        &&& self.destination_spec() == other.destination_spec()
        &&& self.source_spec() == other.source_spec()
    }

    /// Maps a complete image into `destination`.
    pub fn new(image: RgbaImage, destination: Rect) -> (r: Self)
        ensures
            r.image_spec() == image,
            r.destination_spec() == destination,
            r.source_spec() == (PixelRect {
                x: 0,
                y: 0,
                width: image.width_spec(),
                height: image.height_spec(),
            }),
    {
        let source = PixelRect::new(0, 0, image.width(), image.height());
        ImagePlacement { image, destination, source }
    }

    /// Maps an image into a destination of which only `visible` is shown. A
    /// clipped destination would need a matching source-pixel crop, so only
    /// a fully visible destination yields a placement; otherwise the cell
    /// fallback is kept.
    pub fn clipped(image: RgbaImage, destination: Rect, visible: Rect) -> (r: Option<Self>)
        ensures
            destination != visible ==> r is None,
            destination == visible ==> (r matches Some(p) && p.image_spec() == image
                && p.destination_spec() == destination && p.source_spec() == (PixelRect {
                x: 0,
                y: 0,
                width: image.width_spec(),
                height: image.height_spec(),
            })),
    {
        if destination == visible {
            Some(Self::new(image, destination))
        } else {
            None
        }
    }

    /// Returns the immutable image source.
    pub fn image(&self) -> (r: &RgbaImage)
        ensures
            *r == self.image_spec(),
    {
        &self.image
    }

    /// Returns the visible destination in terminal cells.
    pub fn destination(&self) -> (r: Rect)
        ensures
            r == self.destination_spec(),
    {
        self.destination
    }

    /// Returns the visible source region in pixels.
    pub fn source(&self) -> (r: PixelRect)
        ensures
            r == self.source_spec(),
    {
        self.source
    }

    /// Whether the placement can be shown in a frame of `frame` cells: a
    /// nonempty destination inside the frame, and a nonempty source region
    /// inside the image.
    pub open spec fn valid_for_spec(&self, frame: Size) -> bool {
        let d = self.destination_spec();
        let s = self.source_spec();
        &&& !d.is_empty_spec()
        &&& 0 <= d.x && 0 <= d.y && d.right_spec() <= frame.width && d.bottom_spec() <= frame.height
        &&& s.width != 0 && s.height != 0
        &&& s.x + s.width <= self.image_spec().width_spec()
        &&& s.y + s.height <= self.image_spec().height_spec()
    }

    /// Returns whether the placement can be shown in a frame of `frame` cells.
    pub fn is_valid_for(&self, frame: Size) -> (r: bool)
        ensures
            r == self.valid_for_spec(frame),
    {
        let bounds = Rect::new(0, 0, frame.width, frame.height);
        let inside = match self.destination.intersection(bounds) {
            Some(i) => {
                let same = i == self.destination;
                proof {
                    let d = self.destination;
                    if !same {
                        if 0 <= d.x && 0 <= d.y && d.right_spec() <= frame.width && d.bottom_spec()
                            <= frame.height {
                            assert(i.contains_cell(i.x as int, i.y as int));
                            assert(d.contains_cell(i.x as int, i.y as int));
                            assert(d.contains_cell(d.x as int, d.y as int));
                            assert(bounds.contains_cell(d.x as int, d.y as int));
                            assert(i.contains_cell(d.x as int, d.y as int));
                            assert(d.contains_cell(i.right_spec() - 1, i.bottom_spec() - 1));
                            assert(d.contains_cell(d.right_spec() - 1, d.bottom_spec() - 1));
                            assert(i.contains_cell(d.right_spec() - 1, d.bottom_spec() - 1));
                            assert(i.x == d.x && i.y == d.y);
                            assert(i.width == d.width && i.height == d.height);
                        }
                    } else {
                        assert(d.contains_cell(d.x as int, d.y as int));
                        assert(bounds.contains_cell(d.x as int, d.y as int));
                        assert(d.contains_cell(d.right_spec() - 1, d.bottom_spec() - 1));
                        assert(bounds.contains_cell(d.right_spec() - 1, d.bottom_spec() - 1));
                    }
                }
                same
            },
            None => false,
        };
        let source_right = self.source.x.checked_add(self.source.width);
        let source_bottom = self.source.y.checked_add(self.source.height);
        !self.destination.is_empty() && inside && self.source.width != 0 && self.source.height != 0
            && match source_right {
            Some(right) => right <= self.image.width,
            None => false,
        } && match source_bottom {
            Some(bottom) => bottom <= self.image.height,
            None => false,
        }
    }
}

impl Clone for ImagePlacement {
    fn clone(&self) -> (r: Self)
        ensures
            r == *self,
    {
        proof {
            use_type_invariant(self);
        }
        ImagePlacement { image: self.image.clone(), destination: self.destination, source: self.source }
    }
}

impl PartialEq for ImagePlacement {
    fn eq(&self, other: &Self) -> (r: bool) {
        self.image == other.image && self.destination == other.destination && self.source
            == other.source
    }
}

impl vstd::std_specs::cmp::PartialEqSpecImpl for ImagePlacement {
    open spec fn obeys_eq_spec() -> bool {
        true
    }

    open spec fn eq_spec(&self, other: &Self) -> bool {
        self.same(other)
    }
}

/// Whether `image` is among `ids`.
pub(crate) fn contains_image(ids: &Vec<ImageId>, image: ImageId) -> (r: bool)
    ensures
        r == ids@.contains(image),
{
    let mut i: usize = 0;
    while i < ids.len()
        invariant
            i <= ids@.len(),
            forall|j: int| 0 <= j < i ==> ids@[j] != image,
        decreases ids@.len() - i,
    {
        if ids[i] == image {
            assert(ids@[i as int] == image);
            return true;
        }
        i = i + 1;
    }
    false
}

} // verus!
