//! Verified core of the matchy page-pair analyzer.
use vstd::prelude::*;

pub mod a11y_diff;
pub mod baseline;
pub mod clickable;
pub mod clustering;
pub mod config;
pub mod contract;
pub mod digest;
pub mod drafts;
pub mod doctor;
pub mod egress;
pub mod explain;
pub mod hit_test_diff;
pub mod hygiene;
pub mod hygiene_checks;
pub mod hygiene_issues;
pub mod issue;
pub mod json;
pub mod keyed;
pub mod locale;
pub mod orchestrate;
pub mod runner;
pub mod locale_data;
pub mod matching;
pub mod network_diff;
pub mod text;
pub mod weburl;

verus! {
} // verus!
