//! Which screen a device copy is made for.
//!
//! Optimizing means resizing a book's images to the screen that will show
//! them. CrossPoint runs on more than one reader, and a copy made for one
//! device's screen is the wrong size on another's: quietly, since it still
//! opens and still looks like a book. So a screen is named here only when its
//! size is known from the hardware itself.
use crate::text;
use vstd::prelude::*;

verus! {

#[derive(Clone, Copy, Debug, PartialEq, Eq)]
pub struct Profile {
    /// What CrossPoint calls this device in its status.
    pub device: &'static str,
    pub width: u32,
    pub height: u32,
    /// Stamped into a device copy so it is recognized as one later and never
    /// optimized twice.
    pub marker: &'static str,
}

/// The XTeink X4. Its marker is frozen: every device copy already on a reader
/// or a card carries it.
#[verifier::allow_in_spec]
pub fn x4() -> Profile
    returns
        (Profile {
            device: "X4",
            width: 480,
            height: 800,
            marker: "xteink-x4-images-v1:480x800:gray:jpeg85",
        }),
{
    Profile {
        device: "X4",
        width: 480,
        height: 800,
        marker: "xteink-x4-images-v1:480x800:gray:jpeg85",
    }
}

/// The screen to prepare for when nothing says otherwise: every device copy
/// made before there was a choice was made for this one.
#[verifier::allow_in_spec]
pub fn default_profile() -> Profile
    returns
        x4(),
{
    x4()
}

/// The profile for a device CrossPoint has named, if that screen is known.
pub fn for_device(name: &str) -> (r: Option<Profile>)
    ensures
        r == if text::same_ascii(x4().device@, text::trimmed(name@)) {
            Some(x4())
        } else {
            None
        },
{
    let name = text::trim(name);
    if text::eq_ignore_ascii_case(x4().device, name.as_str()) {
        Some(x4())
    } else {
        None
    }
}

/// The devices that can be named, for saying so when one cannot.
pub fn known() -> (r: String)
    ensures
        r@ == x4().device@,
{
    x4().device.to_owned()
}

} // verus!
