//! Compares vulnerability data for the packages of a software bill of materials,
//! and explains what one source does not report.

pub mod text;
pub mod str_map;
pub mod pair_map;
pub mod json;
pub mod lists;
pub mod chunks;
pub mod pattern;
pub mod scores;
pub mod sbom;
pub mod sbom_cdx;
pub mod dependencies;
pub mod osv;
pub mod osv_batch;
pub mod osv_index;
pub mod osv_details;
pub mod osv_packages;
pub mod tpa_analyze;
pub mod exhort;
pub mod snyk_api_lib;
pub mod compare;
pub mod rpm;
pub mod versions;
pub mod categorize;
pub mod refine;
pub mod advisories;
pub mod gaps;
pub mod run;
pub mod report;
