//! What Exhort knows.

use vstd::prelude::*;

use crate::compare::Scored;

verus! {

/// A vulnerability that Exhort knows of a package.
#[allow(non_snake_case)]
#[derive(Debug)]
pub struct ExhortRecord {
    pub PURL: String,
    pub CVE_ID: String,
    pub CVSS: String,
}

impl View for ExhortRecord {
    type V = Scored;

    open spec fn view(&self) -> Scored {
        Scored { purl: self.PURL@, cve_id: self.CVE_ID@, cvss: self.CVSS@ }
    }
}

} // verus!
