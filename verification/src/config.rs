//! Fixed thresholds and tables of the analysis layer, and the two small
//! policy enums that the command line selects.
//!
//! Thresholds that are fractions in the wire format are not kept here: the
//! library compares counts with integer cross-multiplication instead.
use vstd::prelude::*;

use crate::contract::IssueSeverity;
use crate::text::str_eq;

verus! {

/// Minimum region area in px² to emit a `visual_region_changed` issue.
pub const MIN_REGION_AREA: u64 = 2500;

/// Grid cell size in pixels for region clustering.
pub const GRID_CELL: u32 = 16;

/// Padding in pixels when cropping region screenshots.
pub const CROP_PAD: u32 = 8;

/// Minimum group size to emit a cluster.
pub const CLUSTER_MIN: usize = 3;

/// Maximum block side-count for the optimal assignment solver; above this the
/// greedy assignment is used.
pub const HUNGARIAN_MAX: usize = 128;

/// A `component_reordered` is emitted only when the displacement strictly
/// exceeds this value.
pub const SEQ_MIN_DISPLACEMENT: u32 = 2;

/// Cumulative rendered-size budget (chars) for inlined compact-report detail.
pub const DISCLOSURE_BUDGET: usize = 3000;

/// Per-section rendered-size ceiling (chars) of the compact report.
pub const DISCLOSURE_SECTION_CEILING: usize = 1500;

/// Minimum surviving denominator of the clickable-area parity ratio.
pub const MIN_HIT_DENOMINATOR: usize = 9;

/// The CSS properties compared between matched nodes (the curated capture set
/// without the `background` shorthand).
pub const STYLE_DIFF_PROPERTIES: [&'static str; 32] = [
    "color",
    "background-color",
    "background-image",
    "border",
    "border-radius",
    "box-shadow",
    "font-family",
    "font-size",
    "font-weight",
    "line-height",
    "letter-spacing",
    "text-align",
    "padding-top",
    "padding-right",
    "padding-bottom",
    "padding-left",
    "margin-top",
    "margin-right",
    "margin-bottom",
    "margin-left",
    "display",
    "position",
    "opacity",
    "flex-direction",
    "justify-content",
    "align-items",
    "gap",
    "grid-template-columns",
    "text-decoration-line",
    "z-index",
    "max-width",
    "pointer-events",
];

/// Built-in per-type severity overrides, keyed by issue-type wire name.
pub const BUILTIN_TYPE_SEVERITY: [(&'static str, IssueSeverity); 1] = [
    ("clickable_area_regressed", IssueSeverity::Error),
];

/// Built-in per-property severity overrides for style-channel issues.
pub const BUILTIN_PROPERTY_SEVERITY: [(&'static str, IssueSeverity); 2] = [
    ("letter-spacing", IssueSeverity::Info),
    ("line-height", IssueSeverity::Info),
];

/// Issue types (wire names) that a user severity map can never demote below
/// Critical.
pub const HARD_CRITICAL_TYPES: [&'static str; 3] = ["load_error", "status_code_mismatch", "missing_form"];

/// Image-dimension comparison mode.
///
/// `Strict` flags any natural-size change; `Responsive` passes
/// aspect-preserving downscales that still cover the rendered box.
#[derive(Debug, Clone, Copy, PartialEq, Eq, Structural)]
pub enum ImageDimensionsMode {
    Strict,
    Responsive,
}

/// The command-line spelling of a mode.
pub open spec fn image_dims_mode_name(m: ImageDimensionsMode) -> Seq<char> {
    match m {
        ImageDimensionsMode::Strict => "strict"@,
        ImageDimensionsMode::Responsive => "responsive"@,
    }
}

/// The mode a command-line word names, if any (exact, case-sensitive match).
pub open spec fn image_dims_mode_of(s: Seq<char>) -> Option<ImageDimensionsMode> {
    if s == "strict"@ {
        Some(ImageDimensionsMode::Strict)
    } else if s == "responsive"@ {
        Some(ImageDimensionsMode::Responsive)
    } else {
        None
    }
}

impl ImageDimensionsMode {
    /// Parses the command-line word; `None` on any other value.
    pub fn parse(s: &str) -> (r: Option<Self>)
        ensures
            r == image_dims_mode_of(s@),
    {
        if str_eq(s, "strict") {
            Some(ImageDimensionsMode::Strict)
        } else if str_eq(s, "responsive") {
            Some(ImageDimensionsMode::Responsive)
        } else {
            None
        }
    }

    /// The canonical spelling, which `parse` reads back.
    pub fn as_str(self) -> (r: &'static str)
        ensures
            r@ == image_dims_mode_name(self),
    {
        match self {
            ImageDimensionsMode::Strict => "strict",
            ImageDimensionsMode::Responsive => "responsive",
        }
    }
}

/// `as_str` and `parse` are inverse: every mode's spelling parses back to the
/// mode, and a word parses to a mode only if it is that mode's spelling.
pub proof fn lemma_image_dims_mode_round_trip(m: ImageDimensionsMode, s: Seq<char>)
    ensures
        image_dims_mode_of(image_dims_mode_name(m)) == Some(m),
        image_dims_mode_of(s) == Some(m) ==> s == image_dims_mode_name(m),
{
    reveal_strlit("strict");
    reveal_strlit("responsive");
    assert("strict"@ != "responsive"@) by {
        assert("strict"@.len() != "responsive"@.len());
    }
}

/// Trailing-slash policy for page URLs.
#[derive(Debug, Clone, Copy, PartialEq, Eq, Structural)]
pub enum TrailingSlashPolicy {
    /// Paths must not end in a slash (except the root `/`).
    Never,
    /// Paths must end in a slash (except the root `/`).
    Always,
    /// The new page's slash state must match the old page's.
    Preserve,
}

/// The default trailing-slash policy.
pub const DEFAULT_TRAILING_SLASH_POLICY: TrailingSlashPolicy = TrailingSlashPolicy::Never;

} // verus!
