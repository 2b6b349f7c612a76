//! Checks on a render configuration that concern whole numbers.
use vstd::prelude::*;

verus! {

/// The smallest image side that may be rendered.
pub const MIN_IMAGE_SIDE: usize = 200;

/// The largest image side that may be rendered.
pub const MAX_IMAGE_SIDE: usize = 5000;

/// Why an image size is refused.
#[derive(Clone, Copy, Debug, PartialEq, Eq, Structural)]
pub enum SizeError {
    WidthTooSmall,
    WidthTooLarge,
    HeightTooSmall,
    HeightTooLarge,
}

impl SizeError {
    /// A sentence for the user.
    pub fn message(&self) -> (r: &'static str)
        ensures
            r@ == match *self {
                SizeError::WidthTooSmall => "Width must be 200 or greater"@,
                SizeError::WidthTooLarge => "Width must be 5000 or less"@,
                SizeError::HeightTooSmall => "Height must be 200 or greater"@,
                SizeError::HeightTooLarge => "Height must be 5000 or less"@,
            },
    {
        proof {
            reveal_strlit("Width must be 200 or greater");
            reveal_strlit("Width must be 5000 or less");
            reveal_strlit("Height must be 200 or greater");
            reveal_strlit("Height must be 5000 or less");
        }
        match self {
            SizeError::WidthTooSmall => "Width must be 200 or greater",
            SizeError::WidthTooLarge => "Width must be 5000 or less",
            SizeError::HeightTooSmall => "Height must be 200 or greater",
            SizeError::HeightTooLarge => "Height must be 5000 or less",
        }
    }
}

/// Accepts an image of `width` by `height` pixels when each side lies in
/// 200..=5000; the width is checked first, its lower bound before its upper.
pub fn validate_image_size(width: usize, height: usize) -> (r: Result<(), SizeError>)
    ensures
        r == if width < MIN_IMAGE_SIDE {
            Err(SizeError::WidthTooSmall)
        } else if width > MAX_IMAGE_SIDE {
            Err(SizeError::WidthTooLarge)
        } else if height < MIN_IMAGE_SIDE {
            Err(SizeError::HeightTooSmall)
        } else if height > MAX_IMAGE_SIDE {
            Err(SizeError::HeightTooLarge)
        } else {
            Ok::<(), SizeError>(())
        },
        r is Ok ==> width * height <= MAX_IMAGE_SIDE * MAX_IMAGE_SIDE,
{
    if width < MIN_IMAGE_SIDE {
        Err(SizeError::WidthTooSmall)
    } else if width > MAX_IMAGE_SIDE {
        Err(SizeError::WidthTooLarge)
    } else if height < MIN_IMAGE_SIDE {
        Err(SizeError::HeightTooSmall)
    } else if height > MAX_IMAGE_SIDE {
        Err(SizeError::HeightTooLarge)
    } else {
        assert(width * height <= MAX_IMAGE_SIDE * MAX_IMAGE_SIDE) by (nonlinear_arith)
            requires
                width <= MAX_IMAGE_SIDE,
                height <= MAX_IMAGE_SIDE,
        ;
        Ok(())
    }
}

/// The number of pixels of an image of `width` by `height`.
pub fn image_pixel_count(width: usize, height: usize) -> (n: usize)
    requires
        width * height <= usize::MAX,
    ensures
        n == width * height,
{
    width * height
}

} // verus!
