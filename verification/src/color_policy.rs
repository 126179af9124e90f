//! Three-way color policy shared by the SVG and PDF exporters, mirroring
//! ODA's `ColorPolicy` device property: `Full` keeps colors, `Monochrome`
//! forces black (the default), `Grayscale` maps every color to its BT.601
//! luminance.

use vstd::prelude::*;

verus! {

#[derive(Clone, Copy, Debug, PartialEq, Eq, Structural)]
pub enum ColorPolicy {
    /// Keep ACI / true-color strokes (ODA `ColorPolicy=0`).
    Full,
    /// Force all strokes to black (ODA `ColorPolicy=1`, the default).
    Monochrome,
    /// Convert every color to gray by luminance (ODA `ColorPolicy=2`).
    Grayscale,
}

impl Default for ColorPolicy {
    fn default() -> (p: Self)
        ensures
            p == ColorPolicy::Monochrome,
    {
        ColorPolicy::Monochrome
    }
}

} // verus!
