//! Packing finished pixels for display, and the checks a camera has to pass
//! before it is built.
use crate::rank::{at_most, le, less, lt, ONE, ZERO};
use vstd::prelude::*;

verus! {

/// A colour can be shown: each of its three components, given by its rank,
/// lies between zero and one, both included.
pub open spec fn showable(r: i64, g: i64, b: i64) -> bool {
    &&& at_most(ZERO, r) && at_most(r, ONE)
    &&& at_most(ZERO, g) && at_most(g, ONE)
    &&& at_most(ZERO, b) && at_most(b, ONE)
}

/// Whether a colour can be shown. What is not a number cannot.
pub fn valid_color(r: i64, g: i64, b: i64) -> (valid: bool)
    ensures
        valid == showable(r, g, b),
{
    le(ZERO, r) && le(r, ONE) && le(ZERO, g) && le(g, ONE) && le(ZERO, b) && le(b, ONE)
}

/// The pixel `0RGB`: red, green and blue in the three low bytes, nothing in the
/// high byte.
pub open spec fn packed(r: u8, g: u8, b: u8) -> u32 {
    (r as u32 * 0x1_0000 + g as u32 * 0x100 + b as u32) as u32
}

/// Packs the three colour levels of a pixel into `0RGB`.
pub fn pack(r: u8, g: u8, b: u8) -> (pixel: u32)
    ensures
        pixel == packed(r, g, b),
        pixel <= 0xff_ffff,
{
    let (r, g, b) = (r as u32, g as u32, b as u32);
    let pixel = (r << 16) | (g << 8) | b;
    assert(pixel == r * 0x1_0000 + g * 0x100 + b && pixel <= 0xff_ffff) by (bit_vector)
        requires
            pixel == (r << 16) | (g << 8) | b,
            r <= 0xff,
            g <= 0xff,
            b <= 0xff,
    ;
    pixel
}

/// Packs every pixel of a frame, in order.
pub fn encode(levels: &Vec<(u8, u8, u8)>) -> (frame: Vec<u32>)
    ensures
        frame@.len() == levels@.len(),
        forall|i: int|
            0 <= i < levels@.len() ==> #[trigger] frame@[i] == packed(
                levels@[i].0,
                levels@[i].1,
                levels@[i].2,
            ),
{
    let mut frame: Vec<u32> = Vec::new();
    let mut i: usize = 0;
    while i < levels.len()
        invariant
            i <= levels@.len(),
            frame@.len() == i,
            forall|k: int|
                0 <= k < i ==> #[trigger] frame@[k] == packed(
                    levels@[k].0,
                    levels@[k].1,
                    levels@[k].2,
                ),
        decreases levels@.len() - i,
    {
        let (r, g, b) = levels[i];
        frame.push(pack(r, g, b));
        i += 1;
    }
    frame
}

/// The number of pixels of a frame, if the machine can count that far.
pub fn pixel_count(width: usize, height: usize) -> (count: Option<usize>)
    ensures
        count is Some <==> width * height <= usize::MAX,
        count is Some ==> count.unwrap() == width * height,
{
    width.checked_mul(height)
}

/// Why a camera cannot be built.
#[derive(Copy, Clone, Debug, PartialEq, Eq, Structural)]
pub enum CameraError {
    /// No origin was given.
    NoOrigin,
    /// No point to look at was given.
    NoLookAt,
    /// The view-up vector has length zero.
    ZeroViewUp,
    /// The origin and the point to look at are the same.
    SameOriginAndLookAt,
    /// The view-up vector is parallel to the viewing direction.
    ParallelViewUp,
    /// The aperture is less than zero.
    NegativeAperture,
    /// The field of view is zero or less.
    FovNotPositive,
    /// The aspect ratio is zero or less.
    AspectRatioNotPositive,
    /// The focus distance is zero or less.
    FocusDistNotPositive,
}

/// What the checks of a camera look at, as ranks.
#[derive(Copy, Clone, Debug, PartialEq, Eq, Structural)]
pub struct CameraCheck {
    pub has_origin: bool,
    pub has_look_at: bool,
    /// The length of the view-up vector.
    pub view_up_length: i64,
    /// The distance between the origin and the point to look at.
    pub view_length: i64,
    /// The length of the cross product of the view-up direction and the viewing
    /// direction.
    pub cross_length: i64,
    pub aperture: i64,
    pub vfov_degrees: i64,
    pub aspect_ratio: i64,
    pub focus_dist: Option<i64>,
}

impl CameraCheck {
    /// The first check that the camera fails, in the order in which they are
    /// made, if it fails one.
    pub open spec fn fault(self) -> Option<CameraError> {
        if !self.has_origin {
            Some(CameraError::NoOrigin)
        } else if !self.has_look_at {
            Some(CameraError::NoLookAt)
        } else if self.view_up_length == 0 {
            Some(CameraError::ZeroViewUp)
        } else if self.view_length == 0 {
            Some(CameraError::SameOriginAndLookAt)
        } else if self.cross_length == 0 {
            Some(CameraError::ParallelViewUp)
        } else if !at_most(ZERO, self.aperture) {
            Some(CameraError::NegativeAperture)
        } else if !less(ZERO, self.vfov_degrees) {
            Some(CameraError::FovNotPositive)
        } else if !less(ZERO, self.aspect_ratio) {
            Some(CameraError::AspectRatioNotPositive)
        } else if self.focus_dist is Some && !less(ZERO, self.focus_dist.unwrap()) {
            Some(CameraError::FocusDistNotPositive)
        } else {
            None
        }
    }

    /// The camera passes every check: it has an origin and a point to look at,
    /// none of the three lengths is zero, the aperture is zero or more, and the
    /// field of view, the aspect ratio and the focus distance, if one is given,
    /// are above zero. What is not a number is neither.
    pub open spec fn sound(self) -> bool {
        &&& self.has_origin && self.has_look_at
        &&& self.view_up_length != 0 && self.view_length != 0 && self.cross_length != 0
        &&& at_most(ZERO, self.aperture)
        &&& less(ZERO, self.vfov_degrees)
        &&& less(ZERO, self.aspect_ratio)
        &&& self.focus_dist matches Some(d) ==> less(ZERO, d)
    }

    /// Deals with bad camera configurations: reports the first check that fails.
    pub fn verify(&self) -> (checked: Result<(), CameraError>)
        ensures
            checked is Ok <==> self.sound(),
            checked matches Err(e) ==> self.fault() == Some(e),
    {
        if !self.has_origin {
            return Err(CameraError::NoOrigin);
        }
        if !self.has_look_at {
            return Err(CameraError::NoLookAt);
        }
        if self.view_up_length == 0 {
            return Err(CameraError::ZeroViewUp);
        }
        if self.view_length == 0 {
            return Err(CameraError::SameOriginAndLookAt);
        }
        if self.cross_length == 0 {
            return Err(CameraError::ParallelViewUp);
        }
        if !le(ZERO, self.aperture) {
            return Err(CameraError::NegativeAperture);
        }
        if !lt(ZERO, self.vfov_degrees) {
            return Err(CameraError::FovNotPositive);
        }
        if !lt(ZERO, self.aspect_ratio) {
            return Err(CameraError::AspectRatioNotPositive);
        }
        match self.focus_dist {
            Some(dist) => {
                if !lt(ZERO, dist) {
                    return Err(CameraError::FocusDistNotPositive);
                }
            },
            None => {},
        }
        Ok(())
    }
}

impl CameraError {
    /// What went wrong, in words.
    pub fn message(&self) -> (text: &'static str)
        ensures
            text@ == self.text(),
    {
        match self {
            CameraError::NoOrigin => "Camera's origin wasn't provided.",
            CameraError::NoLookAt => "Camera's look_at wasn't provided.",
            CameraError::ZeroViewUp => "Camera's view_up vector has length 0.",
            CameraError::SameOriginAndLookAt => "Camera's origin and look_at vectors are the same.",
            CameraError::ParallelViewUp => "Camera's look_at and view_up vectors are parallel.",
            CameraError::NegativeAperture => "Camera's aperture is less than 0.",
            CameraError::FovNotPositive => "Camera's fov is less than or equal to 0.",
            CameraError::AspectRatioNotPositive => "Camera's aspect ratio is less than or equal to 0.",
            CameraError::FocusDistNotPositive => "Camera's focus distance is less than or equal to 0.",
        }
    }

    /// What went wrong, in words.
    pub open spec fn text(self) -> Seq<char> {
        match self {
            CameraError::NoOrigin => "Camera's origin wasn't provided."@,
            CameraError::NoLookAt => "Camera's look_at wasn't provided."@,
            CameraError::ZeroViewUp => "Camera's view_up vector has length 0."@,
            CameraError::SameOriginAndLookAt => "Camera's origin and look_at vectors are the same."@,
            CameraError::ParallelViewUp => "Camera's look_at and view_up vectors are parallel."@,
            CameraError::NegativeAperture => "Camera's aperture is less than 0."@,
            CameraError::FovNotPositive => "Camera's fov is less than or equal to 0."@,
            CameraError::AspectRatioNotPositive => "Camera's aspect ratio is less than or equal to 0."@,
            CameraError::FocusDistNotPositive => "Camera's focus distance is less than or equal to 0."@,
        }
    }
}

} // verus!
