//! The e-readers that a book can be prepared for.

use vstd::prelude::*;

verus! {

/// An e-reader, as far as the preparation of images depends on it.
#[derive(Clone, Copy, Debug, PartialEq, Eq, Structural)]
pub enum DeviceProfile {
    KindlePaperwhite2024,
    Remarkable2,
}

impl Default for DeviceProfile {
    fn default() -> (profile: Self)
        ensures
            profile == DeviceProfile::KindlePaperwhite2024,
    {
        DeviceProfile::KindlePaperwhite2024
    }
}

impl DeviceProfile {
    /// The width of the screen, in pixels.
    pub fn max_width(&self) -> (width: usize)
        ensures
            width == (match *self {
                DeviceProfile::KindlePaperwhite2024 => 1264usize,
                DeviceProfile::Remarkable2 => 1404usize,
            }),
    {
        match self {
            DeviceProfile::KindlePaperwhite2024 => 1264,
            DeviceProfile::Remarkable2 => 1404,
        }
    }

    /// Whether the screen shows shades of grey only.
    pub fn is_grayscale(&self) -> (gray: bool)
        ensures
            gray,
    {
        match self {
            DeviceProfile::KindlePaperwhite2024 => true,
            DeviceProfile::Remarkable2 => true,
        }
    }
}

} // verus!
