//! A software bill of materials in the form of CycloneDX, as far as it matters
//! here.

use vstd::prelude::*;

verus! {

/// A component, with its package URL where it has one.
#[derive(Debug)]
pub struct CdxComponent {
    pub purl: Option<String>,
}

/// What the component under a reference depends on, where that is stated.
#[allow(non_snake_case)]
#[derive(Debug)]
pub struct CdxDependency {
    pub dependency_ref: String,
    pub dependsOn: Option<Vec<String>>,
}

/// A bill of materials.
#[derive(Debug)]
pub struct CycloneDXBOM {
    pub components: Vec<CdxComponent>,
    pub dependencies: Option<Vec<CdxDependency>>,
}

} // verus!
