//! Why a vulnerability that one source knows is missing from the other.

use vstd::prelude::*;
use vstd::string::*;
use vstd::utf8::is_ascii_chars;

use crate::json::Json;
use crate::lists::{lemma_add_contains, lemma_filter_map_contains};
use crate::pattern::{
    escaped, first_group, is_advisory_id, is_match, law_first_version_counts, law_version_is_read,
    regex_escape, regex_first_group, regex_is_match, version_after, versioned_at, ADVISORY_ID,
    LITERAL_LIMIT, PRODUCT_VERSION,
};
use crate::rpm::{
    ecosystem_group, ecosystems_match, group_number, package_of, parse_rpm_purl, same_major,
    Package, RpmPurl,
};
use crate::str_map::StrMap;
use crate::text::{
    all_digits, contains, lowercase, lowered, occurs_in, same_text, stands_at, starts_with, texts,
};
use crate::versions::{
    asks_unknown, extends, in_affected, law_in_affected_settles, order_of, rpm_order, settled,
    version_in_affected, Answer, Asked, Comparisons, Order,
};

verus! {

pub const FINDING_TPA_MISS: &'static str = "TPA_MISS";

pub const FINDING_VERSION_NA: &'static str = "VERSION_NOT_AFFECTED";

pub const FINDING_ECO_MISMATCH: &'static str = "ECOSYSTEM_MISMATCH";

pub const FINDING_CROSS_PACKAGE: &'static str = "CROSS_PACKAGE";

pub const FINDING_CVE_WITHDRAWN: &'static str = "CVE_WITHDRAWN";

pub const FINDING_UNKNOWN: &'static str = "UNKNOWN";

pub const VERDICT_TPA_GAP: &'static str = "TPA_GAP";

pub const VERDICT_OSV_NOISE: &'static str = "OSV_NOISE";

/// How much a finding counts: the lower, the more.
pub open spec fn priority(finding: Seq<char>) -> u8 {
    if finding == FINDING_TPA_MISS@ {
        0
    } else if finding == FINDING_VERSION_NA@ {
        1
    } else if finding == FINDING_ECO_MISMATCH@ {
        2
    } else if finding == FINDING_CROSS_PACKAGE@ {
        3
    } else if finding == FINDING_CVE_WITHDRAWN@ {
        4
    } else {
        5
    }
}

/// Whether a text is one of the findings.
pub open spec fn is_finding(finding: Seq<char>) -> bool {
    ||| finding == FINDING_TPA_MISS@
    ||| finding == FINDING_VERSION_NA@
    ||| finding == FINDING_ECO_MISMATCH@
    ||| finding == FINDING_CROSS_PACKAGE@
    ||| finding == FINDING_CVE_WITHDRAWN@
    ||| finding == FINDING_UNKNOWN@
}

/// The verdict on a finding: a gap, noise, or none.
pub open spec fn verdict_on(finding: Seq<char>) -> Seq<char> {
    if finding == FINDING_TPA_MISS@ {
        VERDICT_TPA_GAP@
    } else if finding == FINDING_VERSION_NA@ || finding == FINDING_ECO_MISMATCH@ || finding
        == FINDING_CROSS_PACKAGE@ || finding == FINDING_CVE_WITHDRAWN@ {
        VERDICT_OSV_NOISE@
    } else {
        Seq::<char>::empty()
    }
}

/// How much a finding counts: the lower, the more.
pub fn finding_priority(finding: &str) -> (r: u8)
    ensures
        r == priority(finding@),
{
    if same_text(finding, FINDING_TPA_MISS) {
        0
    } else if same_text(finding, FINDING_VERSION_NA) {
        1
    } else if same_text(finding, FINDING_ECO_MISMATCH) {
        2
    } else if same_text(finding, FINDING_CROSS_PACKAGE) {
        3
    } else if same_text(finding, FINDING_CVE_WITHDRAWN) {
        4
    } else {
        5
    }
}

/// The verdict on a finding.
pub fn finding_to_verdict(finding: &str) -> (r: &'static str)
    ensures
        r@ == verdict_on(finding@),
{
    if same_text(finding, FINDING_TPA_MISS) {
        VERDICT_TPA_GAP
    } else if same_text(finding, FINDING_VERSION_NA) || same_text(finding, FINDING_ECO_MISMATCH)
        || same_text(finding, FINDING_CROSS_PACKAGE) || same_text(finding, FINDING_CVE_WITHDRAWN) {
        VERDICT_OSV_NOISE
    } else {
        proof {
            reveal_strlit("");
            assert(""@ =~= Seq::<char>::empty());
        }
        ""
    }
}

/// The verdict is a gap exactly on a miss, noise exactly on the four findings
/// that explain the row away, and blank on what could not be classified.
pub proof fn law_verdict_follows_finding(finding: Seq<char>)
    ensures
        verdict_on(finding) == VERDICT_TPA_GAP@ <==> finding == FINDING_TPA_MISS@,
        verdict_on(finding) == VERDICT_OSV_NOISE@ <==> finding == FINDING_VERSION_NA@ || finding
            == FINDING_ECO_MISMATCH@ || finding == FINDING_CROSS_PACKAGE@ || finding
            == FINDING_CVE_WITHDRAWN@,
        verdict_on(finding).len() == 0 <==> priority(finding) == 5,
        priority(FINDING_TPA_MISS@) < priority(FINDING_VERSION_NA@),
        priority(FINDING_VERSION_NA@) < priority(FINDING_ECO_MISMATCH@),
        priority(FINDING_ECO_MISMATCH@) < priority(FINDING_CROSS_PACKAGE@),
        priority(FINDING_CROSS_PACKAGE@) < priority(FINDING_CVE_WITHDRAWN@),
        priority(FINDING_CVE_WITHDRAWN@) < priority(FINDING_UNKNOWN@),
{
    reveal_strlit("TPA_MISS");
    reveal_strlit("VERSION_NOT_AFFECTED");
    reveal_strlit("ECOSYSTEM_MISMATCH");
    reveal_strlit("CROSS_PACKAGE");
    reveal_strlit("CVE_WITHDRAWN");
    reveal_strlit("UNKNOWN");
    reveal_strlit("TPA_GAP");
    reveal_strlit("OSV_NOISE");
    assert(VERDICT_TPA_GAP@.len() == 7);
    assert(VERDICT_OSV_NOISE@.len() == 9);
    assert(FINDING_TPA_MISS@.len() == 8);
    assert(FINDING_VERSION_NA@.len() == 20);
    assert(FINDING_ECO_MISMATCH@.len() == 18);
    assert(FINDING_CROSS_PACKAGE@.len() == 13);
    assert(FINDING_CVE_WITHDRAWN@.len() == 13);
    assert(FINDING_UNKNOWN@.len() == 7);
    assert(FINDING_CROSS_PACKAGE@[1] != FINDING_CVE_WITHDRAWN@[1]);
}

/// Whether an advisory is one of Red Hat's.
pub open spec fn redhat_advisory(id: Seq<char>) -> bool {
    if is_ascii_chars(id) {
        is_advisory_id(id)
    } else {
        regex_is_match(ADVISORY_ID@, id)
    }
}

/// Whether an advisory is one of Red Hat's.
pub fn is_redhat_advisory(adv_id: &str) -> (r: bool)
    ensures
        r == redhat_advisory(adv_id@),
{
    is_match(ADVISORY_ID, adv_id)
}

/// The text of an item, where it names a CVE.
pub open spec fn cve_text(item: Json) -> Option<Seq<char>> {
    match item.text() {
        Some(s) => if "CVE-"@.is_prefix_of(s) {
            Some(s)
        } else {
            None
        },
        None => None,
    }
}

/// The CVEs in a list under a name.
pub open spec fn cves_under(data: Json, name: Seq<char>) -> Seq<Seq<char>> {
    match data.items_field(name) {
        Some(items) => items.filter_map(|item: Json| cve_text(item)),
        None => Seq::empty(),
    }
}

/// The CVEs that an advisory is about: those of its upstream list, then those of
/// its aliases.
pub open spec fn cves_of(data: Json) -> Seq<Seq<char>> {
    cves_under(data, "upstream"@) + cves_under(data, "aliases"@)
}

/// Appends the CVEs in a list under a name.
fn push_cves(data: &Json, name: &str, ids: &mut Vec<String>)
    ensures
        texts(final(ids)@) == texts(old(ids)@) + cves_under(*data, name@),
{
    if let Some(items) = data.get_array(name) {
        let ghost f = |item: Json| cve_text(item);
        let ghost before = texts(ids@);
        assert(items@.take(0).filter_map(f) =~= Seq::<Seq<char>>::empty());
        assert(before + items@.take(0).filter_map(f) =~= before);
        for i in 0..items.len()
            invariant
                f == (|item: Json| cve_text(item)),
                texts(ids@) == before + items@.take(i as int).filter_map(f),
        {
            let ghost held = ids@;
            proof {
                items@.lemma_filter_map_take_succ(f, i as int);
            }
            if let Some(s) = items[i].as_str() {
                if starts_with(s, "CVE-") {
                    ids.push(s.to_owned());
                    assert(texts(ids@) =~= texts(held).push(s@));
                }
            }
            assert(texts(ids@) =~= before + items@.take(i + 1).filter_map(f));
        }
        assert(items@.take(items@.len() as int) =~= items@);
    } else {
        assert(texts(ids@) =~= texts(old(ids)@) + cves_under(*data, name@));
    }
}

/// The CVEs that an advisory is about.
pub fn advisory_cves(data: &Json) -> (r: Vec<String>)
    ensures
        texts(r@) == cves_of(*data),
{
    let mut ids: Vec<String> = Vec::new();
    push_cves(data, "upstream", &mut ids);
    push_cves(data, "aliases", &mut ids);
    assert(texts(ids@) =~= cves_of(*data));
    ids
}

/// A text, or the empty one.
pub open spec fn or_empty(s: Option<Seq<char>>) -> Seq<char> {
    match s {
        Some(s) => s,
        None => Seq::empty(),
    }
}

/// What an entry of an advisory says of a package: nothing where it is about
/// another one; else that the ecosystem is another, or that the version is
/// affected or is not.
pub open spec fn entry_finding(package: Package, affected: Json, t: Order) -> Answer<
    Option<Seq<char>>,
> {
    match affected.field("package"@) {
        None => Answer::Known(None),
        Some(pkg) => if package.name != or_empty(pkg.text_field("name"@)) {
            Answer::Known(None)
        } else if !same_major(
            package.major,
            group_number(ecosystem_group(or_empty(pkg.text_field("ecosystem"@)))),
        ) {
            Answer::Known(Some(FINDING_ECO_MISMATCH@))
        } else {
            match in_affected(t, package.version, affected) {
                Answer::Known(true) => Answer::Known(Some(FINDING_TPA_MISS@)),
                Answer::Known(false) => Answer::Known(Some(FINDING_VERSION_NA@)),
                Answer::Needs(a, b) => Answer::Needs(a, b),
            }
        },
    }
}

/// What an entry of an advisory says of a package.
pub fn classify_affected_entry(purl: &RpmPurl, affected: &Json, t: &Comparisons) -> (r: Asked<
    Option<&'static str>,
>)
    ensures
        match r {
            Asked::Known(Some(finding)) => entry_finding(purl@, *affected, t@) == Answer::Known(
                Some(finding@),
            ),
            Asked::Known(None) => entry_finding(purl@, *affected, t@) == Answer::Known(
                None::<Seq<char>>,
            ),
            Asked::Needs(a, b) => entry_finding(purl@, *affected, t@) == Answer::<
                Option<Seq<char>>,
            >::Needs(a@, b@),
        },
{
    let pkg = match affected.get("package") {
        Some(pkg) => pkg,
        None => return Asked::Known(None),
    };
    proof {
        reveal_strlit("");
        assert(""@ =~= Seq::<char>::empty());
    }
    let affected_name = match pkg.get_str("name") {
        Some(name) => name,
        None => "",
    };
    if !same_text(purl.name.as_str(), affected_name) {
        return Asked::Known(None);
    }
    let ecosystem = match pkg.get_str("ecosystem") {
        Some(ecosystem) => ecosystem,
        None => "",
    };
    if !ecosystems_match(purl, ecosystem) {
        return Asked::Known(Some(FINDING_ECO_MISMATCH));
    }
    match version_in_affected(purl.rpm_version.as_str(), affected, t) {
        Asked::Known(true) => Asked::Known(Some(FINDING_TPA_MISS)),
        Asked::Known(false) => Asked::Known(Some(FINDING_VERSION_NA)),
        Asked::Needs(a, b) => Asked::Needs(a, b),
    }
}

/// The finding that counts most among `best` and what the entries from the
/// `i`-th on say. Nothing is asked once a miss is found.
pub open spec fn best_entry(
    package: Package,
    entries: Seq<Json>,
    i: int,
    best: Seq<char>,
    t: Order,
) -> Answer<Seq<char>>
    decreases entries.len() - i,
{
    if i >= entries.len() {
        Answer::Known(best)
    } else {
        match entry_finding(package, entries[i], t) {
            Answer::Needs(a, b) => Answer::Needs(a, b),
            Answer::Known(None) => best_entry(package, entries, i + 1, best, t),
            Answer::Known(Some(finding)) => if priority(finding) < priority(best) {
                if finding == FINDING_TPA_MISS@ {
                    Answer::Known(finding)
                } else {
                    best_entry(package, entries, i + 1, finding, t)
                }
            } else {
                best_entry(package, entries, i + 1, best, t)
            },
        }
    }
}

/// What an advisory says of a package and a CVE: nothing known, unless it is one
/// of Red Hat's and about that CVE; then the finding that counts most among its
/// entries.
pub open spec fn advisory_finding(
    package: Package,
    cve_id: Seq<char>,
    data: Json,
    t: Order,
) -> Answer<Seq<char>> {
    if !redhat_advisory(or_empty(data.text_field("id"@))) || !cves_of(data).contains(cve_id) {
        Answer::Known(FINDING_UNKNOWN@)
    } else {
        match data.items_field("affected"@) {
            Some(entries) => best_entry(package, entries, 0, FINDING_UNKNOWN@, t),
            None => Answer::Known(FINDING_UNKNOWN@),
        }
    }
}

/// Whether a text is in a list.
pub(crate) fn holds_text(v: &Vec<String>, s: &str) -> (r: bool)
    ensures
        r == texts(v@).contains(s@),
{
    for i in 0..v.len()
        invariant
            forall|j: int| 0 <= j < i ==> texts(v@)[j] != s@,
    {
        if same_text(v[i].as_str(), s) {
            assert(texts(v@)[i as int] == s@);
            return true;
        }
        assert(texts(v@)[i as int] == v@[i as int]@);
    }
    false
}

/// What an advisory says of a package and a CVE, and the advisory's identifier.
pub fn classify_advisory(purl: &RpmPurl, cve_id: &str, data: &Json, t: &Comparisons) -> (r: Asked<
    (String, String),
>)
    ensures
        match r {
            Asked::Known(found) => {
                &&& advisory_finding(purl@, cve_id@, *data, t@) == Answer::Known(found.0@)
                &&& found.1@ == or_empty(data.text_field("id"@))
            },
            Asked::Needs(a, b) => advisory_finding(purl@, cve_id@, *data, t@) == Answer::<
                Seq<char>,
            >::Needs(a@, b@),
        },
{
    let adv_id = match data.get_str("id") {
        Some(id) => id.to_owned(),
        None => String::new(),
    };
    if !is_redhat_advisory(adv_id.as_str()) {
        return Asked::Known((FINDING_UNKNOWN.to_owned(), adv_id));
    }
    let cves = advisory_cves(data);
    if !holds_text(&cves, cve_id) {
        return Asked::Known((FINDING_UNKNOWN.to_owned(), adv_id));
    }
    let mut best: &'static str = FINDING_UNKNOWN;
    if let Some(entries) = data.get_array("affected") {
        for i in 0..entries.len()
            invariant
                adv_id@ == or_empty(data.text_field("id"@)),
                advisory_finding(purl@, cve_id@, *data, t@) == best_entry(
                    purl@,
                    entries@,
                    i as int,
                    best@,
                    t@,
                ),
        {
            match classify_affected_entry(purl, &entries[i], t) {
                Asked::Known(Some(finding)) => {
                    if finding_priority(finding) < finding_priority(best) {
                        best = finding;
                        if same_text(best, FINDING_TPA_MISS) {
                            return Asked::Known((best.to_owned(), adv_id));
                        }
                    }
                },
                Asked::Known(None) => {},
                Asked::Needs(a, b) => {
                    return Asked::Needs(a, b);
                },
            }
        }
    }
    Asked::Known((best.to_owned(), adv_id))
}

/// What stands before the version in the identifier of a product of a package.
pub open spec fn product_lead(name: Seq<char>) -> Seq<char> {
    seq![':'] + name + seq!['-']
}

/// Whether a product identifier is one of a package: whether the package's name
/// stands in it between a colon and a dash.
pub open spec fn product_of(product_id: Seq<char>, name: Seq<char>) -> bool {
    if product_lead(name).len() <= LITERAL_LIMIT {
        occurs_in(product_lead(name), product_id)
    } else {
        regex_is_match(escaped(product_lead(name)), product_id)
    }
}

/// The version in a product identifier of a package, up to the architecture.
pub open spec fn product_version(product_id: Seq<char>, name: Seq<char>) -> Option<Seq<char>> {
    if product_lead(name).len() <= LITERAL_LIMIT {
        version_after(product_lead(name), product_id, 0)
    } else {
        regex_first_group(escaped(product_lead(name)) + PRODUCT_VERSION@, product_id)
    }
}

/// What stands before the version in a product identifier.
fn lead_text(package_name: &str) -> (r: String)
    ensures
        r@ == product_lead(package_name@),
{
    let mut lead = String::new();
    lead.push(':');
    lead.append(package_name);
    lead.push('-');
    assert(lead@ =~= product_lead(package_name@));
    lead
}

/// Whether a product identifier is one of a package.
pub fn csaf_product_matches_package(product_id: &str, package_name: &str) -> (r: bool)
    ensures
        r == product_of(product_id@, package_name@),
{
    let lead = lead_text(package_name);
    let pattern = regex_escape(lead.as_str());
    is_match(pattern.as_str(), product_id)
}

/// The version in a product identifier of a package.
pub fn csaf_product_version(product_id: &str, package_name: &str) -> (r: Option<String>)
    ensures
        match r {
            Some(v) => product_version(product_id@, package_name@) == Some(v@),
            None => product_version(product_id@, package_name@) is None,
        },
{
    let lead = lead_text(package_name);
    let mut pattern = regex_escape(lead.as_str());
    pattern.append(PRODUCT_VERSION);
    first_group(pattern.as_str(), product_id)
}

/// Whether an item is a product identifier of a package.
pub open spec fn names_package(item: Json, name: Seq<char>) -> bool {
    match item.text() {
        Some(id) => product_of(id, name),
        None => false,
    }
}

/// Whether a list holds a product of a package.
pub open spec fn any_product(items: Seq<Json>, name: Seq<char>) -> bool {
    exists|i: int| 0 <= i < items.len() && names_package(#[trigger] items[i], name)
}

/// Whether a package has a product in the list under a status.
pub open spec fn has_status(status: Json, kind: Seq<char>, name: Seq<char>) -> bool {
    match status.items_field(kind) {
        Some(items) => any_product(items, name),
        None => false,
    }
}

/// Whether a package has a product under a status that says it is, was or may be
/// affected.
pub open spec fn is_affected(status: Json, name: Seq<char>) -> bool {
    has_status(status, "fixed"@, name) || has_status(status, "known_affected"@, name)
        || has_status(status, "first_fixed"@, name) || has_status(status, "first_affected"@, name)
        || has_status(status, "under_investigation"@, name)
}

/// The first product of a package in a list, from the `i`-th item on.
pub open spec fn first_product(items: Seq<Json>, name: Seq<char>, i: int) -> Option<Seq<char>>
    decreases items.len() - i,
{
    if i >= items.len() {
        None
    } else if names_package(items[i], name) {
        items[i].text()
    } else {
        first_product(items, name, i + 1)
    }
}

/// What the version that fixes says of a package: not affected where the package
/// is not below it, a miss otherwise.
pub open spec fn fix_finding(package: Package, status: Json, t: Order) -> Answer<Seq<char>> {
    let product = match status.items_field("fixed"@) {
        Some(items) => first_product(items, package.name, 0),
        None => None,
    };
    let fixed = match product {
        Some(id) => product_version(id, package.name),
        None => None,
    };
    match fixed {
        Some(fixed) => match order_of(t, package.version, fixed) {
            Answer::Known(found) => if found is Some && found->0 >= 0 {
                Answer::Known(FINDING_VERSION_NA@)
            } else {
                Answer::Known(FINDING_TPA_MISS@)
            },
            Answer::Needs(a, b) => Answer::Needs(a, b),
        },
        None => Answer::Known(FINDING_TPA_MISS@),
    }
}

/// What the status of products says of a package.
pub open spec fn status_finding(package: Package, status: Json, t: Order) -> Answer<Seq<char>> {
    if is_affected(status, package.name) {
        fix_finding(package, status, t)
    } else {
        Answer::Known(FINDING_CROSS_PACKAGE@)
    }
}

/// What the first vulnerability, from the `i`-th on, that is the CVE and has a
/// status of products says of a package; a miss where there is none.
pub open spec fn csaf_finding_from(
    package: Package,
    cve_id: Seq<char>,
    vulns: Seq<Json>,
    i: int,
    t: Order,
) -> Answer<Seq<char>>
    decreases vulns.len() - i,
{
    if i >= vulns.len() {
        Answer::Known(FINDING_TPA_MISS@)
    } else if vulns[i].text_field("cve"@) == Some(cve_id) && vulns[i].field("product_status"@)
        is Some {
        status_finding(package, vulns[i].field("product_status"@)->0, t)
    } else {
        csaf_finding_from(package, cve_id, vulns, i + 1, t)
    }
}

/// What a CSAF document makes of a miss; without a document it stays one.
pub open spec fn csaf_finding(
    package: Package,
    cve_id: Seq<char>,
    csaf: Option<Json>,
    t: Order,
) -> Answer<Seq<char>> {
    match csaf {
        Some(data) => match data.items_field("vulnerabilities"@) {
            Some(vulns) => csaf_finding_from(package, cve_id, vulns, 0, t),
            None => Answer::Known(FINDING_TPA_MISS@),
        },
        None => Answer::Known(FINDING_TPA_MISS@),
    }
}

/// Whether an item is a product identifier of a package.
fn item_names_package(item: &Json, name: &str) -> (r: bool)
    ensures
        r == names_package(*item, name@),
{
    match item.as_str() {
        Some(id) => csaf_product_matches_package(id, name),
        None => false,
    }
}

/// Whether a package has a product in the list under a status.
fn status_lists(status: &Json, kind: &str, name: &str) -> (r: bool)
    ensures
        r == has_status(*status, kind@, name@),
{
    if let Some(items) = status.get_array(kind) {
        for i in 0..items.len()
            invariant
                status.items_field(kind@) == Some(items@),
                forall|j: int| 0 <= j < i ==> !names_package(#[trigger] items@[j], name@),
        {
            if item_names_package(&items[i], name) {
                assert(any_product(items@, name@));
                return true;
            }
        }
    }
    false
}

/// The version that fixes a package, as the first of its fixed products has it.
fn fixed_version(status: &Json, name: &str) -> (r: Option<String>)
    ensures
        ({
            let product = match status.items_field("fixed"@) {
                Some(items) => first_product(items, name@, 0),
                None => None,
            };
            match r {
                Some(v) => product is Some && product_version(product->0, name@) == Some(v@),
                None => product is None || product_version(product->0, name@) is None,
            }
        }),
{
    if let Some(items) = status.get_array("fixed") {
        for i in 0..items.len()
            invariant
                status.items_field("fixed"@) == Some(items@),
                first_product(items@, name@, 0) == first_product(items@, name@, i as int),
        {
            if let Some(id) = items[i].as_str() {
                if csaf_product_matches_package(id, name) {
                    return csaf_product_version(id, name);
                }
            }
        }
    }
    None
}

/// What the status of products says of a package.
fn classify_status(purl: &RpmPurl, status: &Json, t: &Comparisons) -> (r: Asked<&'static str>)
    ensures
        finding_is(r, status_finding(purl@, *status, t@)),
{
    let name = purl.name.as_str();
    let affected = status_lists(status, "fixed", name) || status_lists(
        status,
        "known_affected",
        name,
    ) || status_lists(status, "first_fixed", name) || status_lists(status, "first_affected", name)
        || status_lists(status, "under_investigation", name);
    if !affected {
        return Asked::Known(FINDING_CROSS_PACKAGE);
    }
    match fixed_version(status, name) {
        Some(fixed) => match rpm_order(t, purl.rpm_version.as_str(), fixed.as_str()) {
            Asked::Known(Some(order)) => if order >= 0 {
                Asked::Known(FINDING_VERSION_NA)
            } else {
                Asked::Known(FINDING_TPA_MISS)
            },
            Asked::Known(None) => Asked::Known(FINDING_TPA_MISS),
            Asked::Needs(a, b) => Asked::Needs(a, b),
        },
        None => Asked::Known(FINDING_TPA_MISS),
    }
}

/// Whether an executable answer is that finding.
pub open spec fn finding_is(r: Asked<&'static str>, expected: Answer<Seq<char>>) -> bool {
    match r {
        Asked::Known(finding) => expected == Answer::Known(finding@),
        Asked::Needs(a, b) => expected == Answer::<Seq<char>>::Needs(a@, b@),
    }
}

/// The document that may be there.
pub open spec fn json_in(j: Option<&Json>) -> Option<Json> {
    match j {
        Some(j) => Some(*j),
        None => None,
    }
}

/// What the CSAF document of the advisory makes of a miss.
pub fn csaf_verify_tpa_miss(
    purl: &RpmPurl,
    cve_id: &str,
    _adv_id: &str,
    csaf_data: Option<&Json>,
    t: &Comparisons,
) -> (r: Asked<&'static str>)
    ensures
        finding_is(r, csaf_finding(purl@, cve_id@, json_in(csaf_data), t@)),
{
    let data = match csaf_data {
        Some(data) => data,
        None => return Asked::Known(FINDING_TPA_MISS),
    };
    let vulns = match data.get_array("vulnerabilities") {
        Some(vulns) => vulns,
        None => return Asked::Known(FINDING_TPA_MISS),
    };
    for i in 0..vulns.len()
        invariant
            csaf_finding(purl@, cve_id@, json_in(csaf_data), t@) == csaf_finding_from(
                purl@,
                cve_id@,
                vulns@,
                i as int,
                t@,
            ),
    {
        let is_cve = match vulns[i].get_str("cve") {
            Some(cve) => same_text(cve, cve_id),
            None => false,
        };
        if is_cve {
            if let Some(status) = vulns[i].get("product_status") {
                return classify_status(purl, status, t);
            }
        }
    }
    Asked::Known(FINDING_TPA_MISS)
}

/// Whether the record of a CVE says that it is withdrawn or rejected: by a
/// member of that name, or in its details, whatever the case of the letters.
pub open spec fn is_withdrawn(cve_data: Option<Json>) -> bool {
    match cve_data {
        Some(data) => data.field("withdrawn"@) is Some || match data.text_field("details"@) {
            Some(details) => occurs_in("rejected"@, lowered(details)) || occurs_in(
                "withdrawn"@,
                lowered(details),
            ),
            None => false,
        },
        None => false,
    }
}

/// Whether details, in lower case, speak of a rejected or withdrawn CVE.
pub fn details_say_withdrawn(lower: &str) -> (r: bool)
    ensures
        r == (occurs_in("rejected"@, lower@) || occurs_in("withdrawn"@, lower@)),
{
    contains(lower, "rejected") || contains(lower, "withdrawn")
}

/// Whether the record of a CVE says that it is withdrawn or rejected.
pub fn check_cve_withdrawn(cve_data: Option<&Json>) -> (r: bool)
    ensures
        r == is_withdrawn(json_in(cve_data)),
{
    let data = match cve_data {
        Some(data) => data,
        None => return false,
    };
    if data.get("withdrawn").is_some() {
        return true;
    }
    match data.get_str("details") {
        Some(details) => {
            let lower = lowercase(details);
            details_say_withdrawn(lower.as_str())
        },
        None => false,
    }
}

/// What was found out about a vulnerability that is missing.
#[derive(Debug)]
pub struct Category {
    pub finding: String,
    pub verdict: String,
    pub matched_advisory: String,
}

/// A category, as texts.
pub struct CategoryText {
    pub finding: Seq<char>,
    pub verdict: Seq<char>,
    pub matched_advisory: Seq<char>,
}

impl View for Category {
    type V = CategoryText;

    open spec fn view(&self) -> CategoryText {
        CategoryText {
            finding: self.finding@,
            verdict: self.verdict@,
            matched_advisory: self.matched_advisory@,
        }
    }
}

/// A finding of an advisory with the verdict on it.
pub open spec fn category_text(finding: Seq<char>, advisory: Seq<char>) -> CategoryText {
    CategoryText { finding, verdict: verdict_on(finding), matched_advisory: advisory }
}

/// The category of a finding of an advisory.
pub(crate) fn category(finding: String, advisory: String) -> (r: Category)
    ensures
        r@ == category_text(finding@, advisory@),
{
    let verdict = finding_to_verdict(finding.as_str()).to_owned();
    Category { finding, verdict, matched_advisory: advisory }
}

/// The finding that counts most, and the advisory it is from, among `best` and
/// what the advisories from the `i`-th on say; those without data say nothing.
/// Nothing is asked once a miss is found.
pub open spec fn best_advisory(
    package: Package,
    cve_id: Seq<char>,
    ids: Seq<Seq<char>>,
    data: Map<Seq<char>, Json>,
    i: int,
    best: (Seq<char>, Seq<char>),
    t: Order,
) -> Answer<(Seq<char>, Seq<char>)>
    decreases ids.len() - i,
{
    if i >= ids.len() {
        Answer::Known(best)
    } else if !data.contains_key(ids[i]) {
        best_advisory(package, cve_id, ids, data, i + 1, best, t)
    } else {
        let advisory = data[ids[i]];
        match advisory_finding(package, cve_id, advisory, t) {
            Answer::Needs(a, b) => Answer::Needs(a, b),
            Answer::Known(finding) => if priority(finding) < priority(best.0) {
                let better = (finding, or_empty(advisory.text_field("id"@)));
                if finding == FINDING_TPA_MISS@ {
                    Answer::Known(better)
                } else {
                    best_advisory(package, cve_id, ids, data, i + 1, better, t)
                }
            } else {
                best_advisory(package, cve_id, ids, data, i + 1, best, t)
            },
        }
    }
}

/// The category of a package URL and a CVE, from the advisories that are known
/// for the package.
pub open spec fn row_category(
    purl: Seq<char>,
    cve_id: Seq<char>,
    advisories: Map<Seq<char>, Vec<String>>,
    data: Map<Seq<char>, Json>,
    t: Order,
) -> Answer<CategoryText> {
    let nothing = Seq::<char>::empty();
    match package_of(purl) {
        None => Answer::Known(category_text(FINDING_UNKNOWN@, nothing)),
        Some(package) => {
            let ids = if advisories.contains_key(purl) {
                texts(advisories[purl]@)
            } else {
                Seq::empty()
            };
            match best_advisory(package, cve_id, ids, data, 0, (FINDING_UNKNOWN@, nothing), t) {
                Answer::Known((finding, advisory)) => Answer::Known(
                    category_text(finding, advisory),
                ),
                Answer::Needs(a, b) => Answer::Needs(a, b),
            }
        },
    }
}

/// Whether an executable answer is that category.
pub open spec fn category_is(r: Asked<Category>, expected: Answer<CategoryText>) -> bool {
    match r {
        Asked::Known(c) => expected == Answer::Known(c@),
        Asked::Needs(a, b) => expected == Answer::<CategoryText>::Needs(a@, b@),
    }
}

/// The category of a package URL and a CVE that are missing.
pub fn categorize_row(
    purl_str: &str,
    cve_id: &str,
    purl_advisories: &StrMap<Vec<String>>,
    adv_data: &StrMap<Json>,
    t: &Comparisons,
) -> (r: Asked<Category>)
    ensures
        category_is(r, row_category(purl_str@, cve_id@, purl_advisories@, adv_data@, t@)),
{
    let purl = match parse_rpm_purl(purl_str) {
        Some(purl) => purl,
        None => return Asked::Known(category(FINDING_UNKNOWN.to_owned(), String::new())),
    };
    let mut finding = FINDING_UNKNOWN.to_owned();
    let mut advisory = String::new();
    if let Some(ids) = purl_advisories.get(purl_str) {
        let ghost all = texts(ids@);
        let ghost whole = best_advisory(
            purl@,
            cve_id@,
            all,
            adv_data@,
            0,
            (finding@, advisory@),
            t@,
        );
        for i in 0..ids.len()
            invariant
                package_of(purl_str@) == Some(purl@),
                purl_advisories@.contains_key(purl_str@),
                all == texts(purl_advisories@[purl_str@]@),
                all == texts(ids@),
                whole == best_advisory(
                    purl@,
                    cve_id@,
                    all,
                    adv_data@,
                    0,
                    (FINDING_UNKNOWN@, Seq::<char>::empty()),
                    t@,
                ),
                whole == best_advisory(
                    purl@,
                    cve_id@,
                    all,
                    adv_data@,
                    i as int,
                    (finding@, advisory@),
                    t@,
                ),
        {
            assert(all[i as int] == ids@[i as int]@);
            if let Some(data) = adv_data.get(ids[i].as_str()) {
                match classify_advisory(&purl, cve_id, data, t) {
                    Asked::Known((found, matched)) => {
                        if finding_priority(found.as_str()) < finding_priority(finding.as_str()) {
                            finding = found;
                            advisory = matched;
                            if same_text(finding.as_str(), FINDING_TPA_MISS) {
                                return Asked::Known(category(finding, advisory));
                            }
                        }
                    },
                    Asked::Needs(a, b) => {
                        return Asked::Needs(a, b);
                    },
                }
            }
        }
    }
    Asked::Known(category(finding, advisory))
}

proof fn lemma_best_entry(
    package: Package,
    entries: Seq<Json>,
    i: int,
    best: Seq<char>,
    t: Order,
    more: Order,
)
    requires
        extends(t, more),
    ensures
        asks_unknown(best_entry(package, entries, i, best, t), t),
        settled(
            best_entry(package, entries, i, best, t),
            best_entry(package, entries, i, best, more),
        ),
    decreases entries.len() - i,
{
    if i < entries.len() {
        law_in_affected_settles(t, more, package.version, entries[i]);
        lemma_best_entry(package, entries, i + 1, best, t, more);
        if let Answer::Known(Some(finding)) = entry_finding(package, entries[i], t) {
            lemma_best_entry(package, entries, i + 1, finding, t, more);
        }
    }
}

proof fn lemma_advisory(package: Package, cve_id: Seq<char>, data: Json, t: Order, more: Order)
    requires
        extends(t, more),
    ensures
        asks_unknown(advisory_finding(package, cve_id, data, t), t),
        settled(
            advisory_finding(package, cve_id, data, t),
            advisory_finding(package, cve_id, data, more),
        ),
{
    if let Some(entries) = data.items_field("affected"@) {
        lemma_best_entry(package, entries, 0, FINDING_UNKNOWN@, t, more);
    }
}

proof fn lemma_best_advisory(
    package: Package,
    cve_id: Seq<char>,
    ids: Seq<Seq<char>>,
    data: Map<Seq<char>, Json>,
    i: int,
    best: (Seq<char>, Seq<char>),
    t: Order,
    more: Order,
)
    requires
        extends(t, more),
    ensures
        asks_unknown(best_advisory(package, cve_id, ids, data, i, best, t), t),
        settled(
            best_advisory(package, cve_id, ids, data, i, best, t),
            best_advisory(package, cve_id, ids, data, i, best, more),
        ),
    decreases ids.len() - i,
{
    if i < ids.len() {
        lemma_best_advisory(package, cve_id, ids, data, i + 1, best, t, more);
        if data.contains_key(ids[i]) {
            let advisory = data[ids[i]];
            lemma_advisory(package, cve_id, advisory, t, more);
            if let Answer::Known(finding) = advisory_finding(package, cve_id, advisory, t) {
                let better = (finding, or_empty(advisory.text_field("id"@)));
                lemma_best_advisory(package, cve_id, ids, data, i + 1, better, t, more);
            }
        }
    }
}

/// Categorizing a row asks only for comparisons that are not known yet, and a
/// category once known stays the same whatever else is compared.
pub proof fn law_row_category_settles(
    purl: Seq<char>,
    cve_id: Seq<char>,
    advisories: Map<Seq<char>, Vec<String>>,
    data: Map<Seq<char>, Json>,
    t: Order,
    more: Order,
)
    requires
        extends(t, more),
    ensures
        asks_unknown(row_category(purl, cve_id, advisories, data, t), t),
        settled(
            row_category(purl, cve_id, advisories, data, t),
            row_category(purl, cve_id, advisories, data, more),
        ),
{
    if let Some(package) = package_of(purl) {
        let ids = if advisories.contains_key(purl) {
            texts(advisories[purl]@)
        } else {
            Seq::empty()
        };
        lemma_best_advisory(
            package,
            cve_id,
            ids,
            data,
            0,
            (FINDING_UNKNOWN@, Seq::<char>::empty()),
            t,
            more,
        );
    }
}

proof fn lemma_csaf(
    package: Package,
    cve_id: Seq<char>,
    vulns: Seq<Json>,
    i: int,
    t: Order,
    more: Order,
)
    requires
        extends(t, more),
    ensures
        asks_unknown(csaf_finding_from(package, cve_id, vulns, i, t), t),
        settled(
            csaf_finding_from(package, cve_id, vulns, i, t),
            csaf_finding_from(package, cve_id, vulns, i, more),
        ),
    decreases vulns.len() - i,
{
    if i < vulns.len() {
        lemma_csaf(package, cve_id, vulns, i + 1, t, more);
    }
}

/// Checking a miss against a CSAF document asks only for a comparison that is
/// not known yet, and its answer once known stays the same whatever else is
/// compared.
pub proof fn law_csaf_finding_settles(
    package: Package,
    cve_id: Seq<char>,
    csaf: Option<Json>,
    t: Order,
    more: Order,
)
    requires
        extends(t, more),
    ensures
        asks_unknown(csaf_finding(package, cve_id, csaf, t), t),
        settled(
            csaf_finding(package, cve_id, csaf, t),
            csaf_finding(package, cve_id, csaf, more),
        ),
{
    if let Some(data) = csaf {
        if let Some(vulns) = data.items_field("vulnerabilities"@) {
            lemma_csaf(package, cve_id, vulns, 0, t, more);
        }
    }
}

proof fn lemma_best_counts_most(
    package: Package,
    cve_id: Seq<char>,
    ids: Seq<Seq<char>>,
    data: Map<Seq<char>, Json>,
    i: int,
    best: (Seq<char>, Seq<char>),
    t: Order,
)
    requires
        0 <= i,
    ensures
        best_advisory(package, cve_id, ids, data, i, best, t) matches Answer::Known(found) ==> {
            &&& priority(found.0) <= priority(best.0)
            &&& forall|j: int|
                i <= j < ids.len() && #[trigger] data.contains_key(ids[j]) ==> (advisory_finding(
                    package,
                    cve_id,
                    data[ids[j]],
                    t,
                ) matches Answer::Known(finding) ==> priority(found.0) <= priority(finding))
        },
    decreases ids.len() - i,
{
    if i < ids.len() {
        lemma_best_counts_most(package, cve_id, ids, data, i + 1, best, t);
        if data.contains_key(ids[i]) {
            let advisory = data[ids[i]];
            if let Answer::Known(finding) = advisory_finding(package, cve_id, advisory, t) {
                let better = (finding, or_empty(advisory.text_field("id"@)));
                lemma_best_counts_most(package, cve_id, ids, data, i + 1, better, t);
            }
        }
    }
}

/// The finding of a row counts at least as much as what any of the package's
/// advisories says, as far as that is known.
pub proof fn law_row_finding_counts_most(
    purl: Seq<char>,
    cve_id: Seq<char>,
    advisories: Map<Seq<char>, Vec<String>>,
    data: Map<Seq<char>, Json>,
    t: Order,
    id: Seq<char>,
)
    requires
        package_of(purl) is Some,
        advisories.contains_key(purl),
        texts(advisories[purl]@).contains(id),
        data.contains_key(id),
        row_category(purl, cve_id, advisories, data, t) is Known,
        advisory_finding(package_of(purl)->0, cve_id, data[id], t) is Known,
    ensures
        priority(row_category(purl, cve_id, advisories, data, t)->Known_0.finding) <= priority(
            advisory_finding(package_of(purl)->0, cve_id, data[id], t)->Known_0,
        ),
{
    let ids = texts(advisories[purl]@);
    lemma_best_counts_most(
        package_of(purl)->0,
        cve_id,
        ids,
        data,
        0,
        (FINDING_UNKNOWN@, Seq::<char>::empty()),
        t,
    );
    let j = choose|j: int| 0 <= j < ids.len() && ids[j] == id;
    assert(data.contains_key(ids[j]));
}

proof fn lemma_best_is_red_hat(
    package: Package,
    cve_id: Seq<char>,
    ids: Seq<Seq<char>>,
    data: Map<Seq<char>, Json>,
    i: int,
    best: (Seq<char>, Seq<char>),
    t: Order,
)
    requires
        is_finding(best.0),
        priority(best.0) < 5 <==> redhat_advisory(best.1),
        priority(best.0) >= 5 ==> best.1.len() == 0,
    ensures
        best_advisory(package, cve_id, ids, data, i, best, t) matches Answer::Known(found) ==> {
            &&& is_finding(found.0)
            &&& priority(found.0) < 5 <==> redhat_advisory(found.1)
            &&& priority(found.0) >= 5 ==> found.1.len() == 0
        },
    decreases ids.len() - i,
{
    if i < ids.len() {
        lemma_best_is_red_hat(package, cve_id, ids, data, i + 1, best, t);
        if data.contains_key(ids[i]) {
            let advisory = data[ids[i]];
            if let Answer::Known(finding) = advisory_finding(package, cve_id, advisory, t) {
                let better = (finding, or_empty(advisory.text_field("id"@)));
                if priority(finding) < priority(best.0) {
                    law_verdict_follows_finding(FINDING_UNKNOWN@);
                    assert(redhat_advisory(better.1));
                    lemma_best_is_red_hat(package, cve_id, ids, data, i + 1, better, t);
                }
            }
        }
    }
}

/// The advisory that a row is matched with is one of Red Hat's; where no finding
/// comes of the advisories there is none. What is found is one of the findings,
/// with its verdict.
pub proof fn law_matched_advisory_is_red_hat(
    purl: Seq<char>,
    cve_id: Seq<char>,
    advisories: Map<Seq<char>, Vec<String>>,
    data: Map<Seq<char>, Json>,
    t: Order,
)
    ensures
        row_category(purl, cve_id, advisories, data, t) matches Answer::Known(c) ==> {
            &&& is_finding(c.finding)
            &&& priority(c.finding) < 5 ==> redhat_advisory(c.matched_advisory)
            &&& priority(c.finding) >= 5 ==> c.matched_advisory.len() == 0
            &&& c.verdict == verdict_on(c.finding)
        },
{
    let nothing = Seq::<char>::empty();
    law_verdict_follows_finding(FINDING_UNKNOWN@);
    assert(!redhat_advisory(nothing));
    if let Some(package) = package_of(purl) {
        let ids = if advisories.contains_key(purl) {
            texts(advisories[purl]@)
        } else {
            Seq::empty()
        };
        lemma_best_is_red_hat(package, cve_id, ids, data, 0, (FINDING_UNKNOWN@, nothing), t);
    }
}

proof fn lemma_csaf_finding_from(
    package: Package,
    cve_id: Seq<char>,
    vulns: Seq<Json>,
    i: int,
    t: Order,
)
    ensures
        csaf_finding_from(package, cve_id, vulns, i, t) matches Answer::Known(finding)
            ==> is_finding(finding) && priority(finding) < priority(FINDING_UNKNOWN@),
    decreases vulns.len() - i,
{
    law_verdict_follows_finding(FINDING_UNKNOWN@);
    if i < vulns.len() {
        lemma_csaf_finding_from(package, cve_id, vulns, i + 1, t);
    }
}

/// What a CSAF document makes of a miss is one of the findings, and never that
/// nothing is known.
pub proof fn law_csaf_gives_a_finding(
    package: Package,
    cve_id: Seq<char>,
    csaf: Option<Json>,
    t: Order,
)
    ensures
        csaf_finding(package, cve_id, csaf, t) matches Answer::Known(finding)
            ==> is_finding(finding) && priority(finding) < priority(FINDING_UNKNOWN@),
{
    law_verdict_follows_finding(FINDING_UNKNOWN@);
    if let Some(data) = csaf {
        if let Some(vulns) = data.items_field("vulnerabilities"@) {
            lemma_csaf_finding_from(package, cve_id, vulns, 0, t);
        }
    }
}

/// Whether a list holds, as one of its items, a text.
pub open spec fn lists_text(data: Json, name: Seq<char>, s: Seq<char>) -> bool {
    data.items_field(name) matches Some(items) && exists|i: int|
        0 <= i < items.len() && (#[trigger] items[i]).text() == Some(s)
}

proof fn lemma_cves_under(data: Json, name: Seq<char>, cve: Seq<char>)
    ensures
        cves_under(data, name).contains(cve) <==> "CVE-"@.is_prefix_of(cve) && lists_text(
            data,
            name,
            cve,
        ),
{
    if let Some(items) = data.items_field(name) {
        let f = |item: Json| cve_text(item);
        lemma_filter_map_contains(items, f, cve);
        if exists|i: int| 0 <= i < items.len() && f(#[trigger] items[i]) == Some(cve) {
            let i = choose|i: int| 0 <= i < items.len() && f(#[trigger] items[i]) == Some(cve);
            assert(items[i].text() == Some(cve));
        }
        if "CVE-"@.is_prefix_of(cve) && lists_text(data, name, cve) {
            let i = choose|i: int| 0 <= i < items.len() && (#[trigger] items[i]).text() == Some(cve);
            assert(f(items[i]) == Some(cve));
        }
    }
}

/// An advisory is about a CVE exactly where its upstream list or its aliases hold
/// the CVE's name.
pub proof fn law_advisory_names_its_cves(data: Json, cve: Seq<char>)
    ensures
        cves_of(data).contains(cve) <==> "CVE-"@.is_prefix_of(cve) && (lists_text(
            data,
            "upstream"@,
            cve,
        ) || lists_text(data, "aliases"@, cve)),
{
    lemma_add_contains(cves_under(data, "upstream"@), cves_under(data, "aliases"@), cve);
    lemma_cves_under(data, "upstream"@, cve);
    lemma_cves_under(data, "aliases"@, cve);
}

/// An entry says nothing of a package that is not the one it names. Of the one that
/// it names it says that the ecosystem is another, unless both are known to be of
/// the same major release; then it says that the package is missed where its
/// version is affected, and that the version is not affected where it is not.
pub proof fn law_entry_speaks_of_its_package(
    package: Package,
    affected: Json,
    pkg: Json,
    name: Seq<char>,
    ecosystem: Seq<char>,
    t: Order,
)
    requires
        affected.field("package"@) == Some(pkg),
        pkg.text_field("name"@) == Some(name),
        pkg.text_field("ecosystem"@) == Some(ecosystem),
    ensures
        name != package.name ==> entry_finding(package, affected, t) == Answer::Known(
            None::<Seq<char>>,
        ),
        name == package.name && (package.major is None || group_number(ecosystem_group(ecosystem))
            is None || package.major != group_number(ecosystem_group(ecosystem))) ==> entry_finding(
            package,
            affected,
            t,
        ) == Answer::Known(Some("ECOSYSTEM_MISMATCH"@)),
        name == package.name && package.major is Some && package.major == group_number(
            ecosystem_group(ecosystem),
        ) ==> {
            &&& in_affected(t, package.version, affected) == Answer::Known(true) ==> entry_finding(
                package,
                affected,
                t,
            ) == Answer::Known(Some("TPA_MISS"@))
            &&& in_affected(t, package.version, affected) == Answer::Known(false) ==> entry_finding(
                package,
                affected,
                t,
            ) == Answer::Known(Some("VERSION_NOT_AFFECTED"@))
            &&& in_affected(t, package.version, affected) matches Answer::Needs(a, b)
                ==> entry_finding(package, affected, t) == Answer::<Option<Seq<char>>>::Needs(a, b)
        },
{
}

/// An entry that names the package but no ecosystem is of another ecosystem.
pub proof fn law_entry_without_an_ecosystem(package: Package, affected: Json, pkg: Json, t: Order)
    requires
        affected.field("package"@) == Some(pkg),
        pkg.text_field("name"@) == Some(package.name),
        pkg.text_field("ecosystem"@) is None,
    ensures
        entry_finding(package, affected, t) == Answer::Known(Some("ECOSYSTEM_MISMATCH"@)),
{
    assert(is_ascii_chars(Seq::<char>::empty()));
    assert(ecosystem_group(Seq::<char>::empty()) is None);
}

/// An entry that names no package speaks of none that has a name.
pub proof fn law_entry_without_a_package(package: Package, affected: Json, t: Order)
    requires
        package.name.len() > 0,
        affected.field("package"@) is None || affected.field("package"@)->0.text_field("name"@)
            is None,
    ensures
        entry_finding(package, affected, t) == Answer::Known(None::<Seq<char>>),
{
}

proof fn lemma_entry_counts_most(package: Package, entries: Seq<Json>, i: int, best: Seq<char>, t: Order)
    requires
        0 <= i,
    ensures
        best_entry(package, entries, i, best, t) matches Answer::Known(finding) ==> {
            &&& priority(finding) <= priority(best)
            &&& finding == best || exists|j: int|
                i <= j < entries.len() && entry_finding(package, #[trigger] entries[j], t)
                    == Answer::Known(Some(finding))
            &&& forall|j: int|
                i <= j < entries.len() ==> (entry_finding(package, #[trigger] entries[j], t) matches Answer::Known(
                    Some(other),
                ) ==> priority(finding) <= priority(other))
        },
    decreases entries.len() - i,
{
    if i < entries.len() {
        lemma_entry_counts_most(package, entries, i + 1, best, t);
        if let Answer::Known(Some(here)) = entry_finding(package, entries[i], t) {
            lemma_entry_counts_most(package, entries, i + 1, here, t);
            assert(entry_finding(package, entries[i], t) == Answer::Known(Some(here)));
        }
    }
}

/// What an advisory of Red Hat's that is about the CVE says of a package is what
/// one of its entries says, and none of them says what counts more; where none says
/// anything, nothing is known.
pub proof fn law_advisory_says_what_counts_most(
    package: Package,
    cve: Seq<char>,
    data: Json,
    id: Seq<char>,
    entries: Seq<Json>,
    t: Order,
)
    requires
        data.text_field("id"@) == Some(id),
        redhat_advisory(id),
        "CVE-"@.is_prefix_of(cve),
        lists_text(data, "upstream"@, cve) || lists_text(data, "aliases"@, cve),
        data.items_field("affected"@) == Some(entries),
    ensures
        advisory_finding(package, cve, data, t) matches Answer::Known(finding) ==> {
            &&& finding == "UNKNOWN"@ || exists|j: int|
                0 <= j < entries.len() && entry_finding(package, #[trigger] entries[j], t)
                    == Answer::Known(Some(finding))
            &&& forall|j: int|
                0 <= j < entries.len() ==> (entry_finding(package, #[trigger] entries[j], t) matches Answer::Known(
                    Some(other),
                ) ==> priority(finding) <= priority(other))
        },
        (forall|j: int|
            0 <= j < entries.len() ==> entry_finding(package, #[trigger] entries[j], t) is Known)
            ==> advisory_finding(package, cve, data, t) is Known,
{
    law_advisory_names_its_cves(data, cve);
    lemma_entry_counts_most(package, entries, 0, FINDING_UNKNOWN@, t);
    if forall|j: int|
        0 <= j < entries.len() ==> entry_finding(package, #[trigger] entries[j], t) is Known {
        lemma_entries_known(package, entries, 0, FINDING_UNKNOWN@, t);
    }
}

proof fn lemma_entries_known(
    package: Package,
    entries: Seq<Json>,
    i: int,
    best: Seq<char>,
    t: Order,
)
    requires
        0 <= i,
        forall|j: int|
            0 <= j < entries.len() ==> entry_finding(package, #[trigger] entries[j], t) is Known,
    ensures
        best_entry(package, entries, i, best, t) is Known,
    decreases entries.len() - i,
{
    if i < entries.len() {
        assert(entry_finding(package, entries[i], t) is Known);
        lemma_entries_known(package, entries, i + 1, best, t);
        if let Answer::Known(Some(here)) = entry_finding(package, entries[i], t) {
            lemma_entries_known(package, entries, i + 1, here, t);
        }
    }
}

/// An advisory that is not one of Red Hat's, or is not about the CVE, says nothing
/// of a package.
pub proof fn law_other_advisories_say_nothing(
    package: Package,
    cve: Seq<char>,
    data: Json,
    t: Order,
)
    requires
        !redhat_advisory(or_empty(data.text_field("id"@))) || !"CVE-"@.is_prefix_of(cve) || (
        !lists_text(data, "upstream"@, cve) && !lists_text(data, "aliases"@, cve)),
    ensures
        advisory_finding(package, cve, data, t) == Answer::Known("UNKNOWN"@),
{
    law_advisory_names_its_cves(data, cve);
}

proof fn lemma_advisory_comes_first(
    package: Package,
    cve_id: Seq<char>,
    ids: Seq<Seq<char>>,
    data: Map<Seq<char>, Json>,
    i: int,
    best: (Seq<char>, Seq<char>),
    t: Order,
)
    requires
        0 <= i,
    ensures
        best_advisory(package, cve_id, ids, data, i, best, t) matches Answer::Known(found) ==> {
            &&& priority(found.0) <= priority(best.0)
            &&& found == best || exists|j: int|
                i <= j < ids.len() && data.contains_key(#[trigger] ids[j]) && advisory_finding(
                    package,
                    cve_id,
                    data[ids[j]],
                    t,
                ) == Answer::Known(found.0) && found.1 == or_empty(
                    data[ids[j]].text_field("id"@),
                ) && priority(found.0) < priority(best.0) && forall|m: int|
                    i <= m < j && data.contains_key(#[trigger] ids[m]) ==> (advisory_finding(
                        package,
                        cve_id,
                        data[ids[m]],
                        t,
                    ) matches Answer::Known(earlier) && priority(found.0) < priority(earlier))
        },
    decreases ids.len() - i,
{
    if i < ids.len() {
        lemma_advisory_comes_first(package, cve_id, ids, data, i + 1, best, t);
        if data.contains_key(ids[i]) {
            let advisory = data[ids[i]];
            if let Answer::Known(finding) = advisory_finding(package, cve_id, advisory, t) {
                let better = (finding, or_empty(advisory.text_field("id"@)));
                lemma_advisory_comes_first(package, cve_id, ids, data, i + 1, better, t);
                if let Answer::Known(found) = best_advisory(
                    package,
                    cve_id,
                    ids,
                    data,
                    i,
                    best,
                    t,
                ) {
                    if priority(finding) < priority(best.0) {
                        if found == better {
                            assert(data.contains_key(ids[i]));
                        }
                    }
                }
            }
        }
    }
}

/// The category of a row that is not unknown is what the first of the package's
/// advisories says that counts most, and it names that advisory: every advisory
/// before it says what counts less.
pub proof fn law_row_goes_by_an_advisory(
    purl: Seq<char>,
    cve_id: Seq<char>,
    advisories: Map<Seq<char>, Vec<String>>,
    data: Map<Seq<char>, Json>,
    t: Order,
    package: Package,
)
    requires
        package_of(purl) == Some(package),
        advisories.contains_key(purl),
    ensures
        row_category(purl, cve_id, advisories, data, t) matches Answer::Known(c) ==> (c.finding
            != "UNKNOWN"@ ==> exists|j: int|
            0 <= j < advisories[purl]@.len() && data.contains_key(
                (#[trigger] advisories[purl]@[j])@,
            ) && advisory_finding(package, cve_id, data[advisories[purl]@[j]@], t)
                == Answer::Known(c.finding) && c.matched_advisory == or_empty(
                data[advisories[purl]@[j]@].text_field("id"@),
            ) && forall|m: int|
                0 <= m < j && data.contains_key((#[trigger] advisories[purl]@[m])@) ==> (
                advisory_finding(package, cve_id, data[advisories[purl]@[m]@], t) matches Answer::Known(
                    earlier,
                ) && priority(c.finding) < priority(earlier))),
{
    let ids = texts(advisories[purl]@);
    let nothing = Seq::<char>::empty();
    lemma_advisory_comes_first(package, cve_id, ids, data, 0, (FINDING_UNKNOWN@, nothing), t);
    if let Answer::Known(c) = row_category(purl, cve_id, advisories, data, t) {
        if c.finding != FINDING_UNKNOWN@ {
            let j = choose|j: int|
                0 <= j < ids.len() && data.contains_key(#[trigger] ids[j]) && advisory_finding(
                    package,
                    cve_id,
                    data[ids[j]],
                    t,
                ) == Answer::Known(c.finding) && c.matched_advisory == or_empty(
                    data[ids[j]].text_field("id"@),
                ) && forall|m: int|
                    0 <= m < j && data.contains_key(#[trigger] ids[m]) ==> (advisory_finding(
                        package,
                        cve_id,
                        data[ids[m]],
                        t,
                    ) matches Answer::Known(earlier) && priority(c.finding) < priority(earlier));
            assert(ids[j] == advisories[purl]@[j]@);
            assert forall|m: int|
                0 <= m < j && data.contains_key((#[trigger] advisories[purl]@[m])@) implies (
            advisory_finding(package, cve_id, data[advisories[purl]@[m]@], t) matches Answer::Known(
                earlier,
            ) && priority(c.finding) < priority(earlier)) by {
                assert(ids[m] == advisories[purl]@[m]@);
            }
        }
    }
}

/// Nothing is known of a row that is not about an RPM package, or about one for
/// which no advisory is known.
pub proof fn law_row_without_advisories(
    purl: Seq<char>,
    cve_id: Seq<char>,
    advisories: Map<Seq<char>, Vec<String>>,
    data: Map<Seq<char>, Json>,
    t: Order,
)
    requires
        package_of(purl) is None || !advisories.contains_key(purl),
    ensures
        row_category(purl, cve_id, advisories, data, t) matches Answer::Known(c) && c.finding
            == "UNKNOWN"@ && c.verdict.len() == 0 && c.matched_advisory.len() == 0,
{
    law_verdict_follows_finding(FINDING_UNKNOWN@);
}

proof fn lemma_csaf_at(
    package: Package,
    cve: Seq<char>,
    vulns: Seq<Json>,
    i: int,
    k: int,
    t: Order,
)
    requires
        0 <= i <= k <= vulns.len(),
        forall|j: int|
            0 <= j < k ==> (#[trigger] vulns[j]).text_field("cve"@) != Some(cve) || vulns[j].field(
                "product_status"@,
            ) is None,
    ensures
        csaf_finding_from(package, cve, vulns, i, t) == csaf_finding_from(
            package,
            cve,
            vulns,
            k,
            t,
        ),
    decreases k - i,
{
    if i < k {
        assert(vulns[i].text_field("cve"@) != Some(cve) || vulns[i].field("product_status"@)
            is None);
        lemma_csaf_at(package, cve, vulns, i + 1, k, t);
    }
}

proof fn lemma_first_product(items: Seq<Json>, name: Seq<char>, i: int, k: int)
    requires
        0 <= i <= k <= items.len(),
        forall|j: int|
            0 <= j < k ==> ((#[trigger] items[j]).text() matches Some(id) ==> !product_of(id, name)),
    ensures
        first_product(items, name, i) == first_product(items, name, k),
    decreases k - i,
{
    if i < k {
        assert(items[i].text() matches Some(id) ==> !product_of(id, name));
        lemma_first_product(items, name, i + 1, k);
    }
}

/// Whether that vulnerability of a CSAF document, with that status of products, is
/// the one that counts for a CVE: the first that has both.
pub open spec fn counts_for(vulns: Seq<Json>, cve: Seq<char>, k: int, status: Json) -> bool {
    &&& 0 <= k < vulns.len()
    &&& vulns[k].text_field("cve"@) == Some(cve)
    &&& vulns[k].field("product_status"@) == Some(status)
    &&& forall|j: int|
        0 <= j < k ==> (#[trigger] vulns[j]).text_field("cve"@) != Some(cve) || vulns[j].field(
            "product_status"@,
        ) is None
}

/// Whether that is the first product of a package in a list.
pub open spec fn is_first_product(items: Seq<Json>, name: Seq<char>, m: int, id: Seq<char>) -> bool {
    &&& 0 <= m < items.len()
    &&& items[m].text() == Some(id)
    &&& product_of(id, name)
    &&& forall|j: int|
        0 <= j < m ==> ((#[trigger] items[j]).text() matches Some(other) ==> !product_of(other, name))
}

/// Where the status of the CVE's products has a first fixed product of the package,
/// with a version, the order of the two versions decides: a package at or above the
/// fix is not affected, one below it is missed, and so is one that could not be
/// compared.
pub proof fn law_fixed_version_clears(
    package: Package,
    cve: Seq<char>,
    data: Json,
    t: Order,
    vulns: Seq<Json>,
    k: int,
    status: Json,
    items: Seq<Json>,
    m: int,
    id: Seq<char>,
    fixed: Seq<char>,
)
    requires
        data.items_field("vulnerabilities"@) == Some(vulns),
        counts_for(vulns, cve, k, status),
        status.items_field("fixed"@) == Some(items),
        is_first_product(items, package.name, m, id),
        product_version(id, package.name) == Some(fixed),
    ensures
        t.contains_key((package.version, fixed)) && t[(package.version, fixed)] is Some
            && t[(package.version, fixed)]->0 >= 0 ==> csaf_finding(package, cve, Some(data), t)
            == Answer::Known("VERSION_NOT_AFFECTED"@),
        t.contains_key((package.version, fixed)) && (t[(package.version, fixed)] is None || t[(
            package.version,
            fixed,
        )]->0 < 0) ==> csaf_finding(package, cve, Some(data), t) == Answer::Known("TPA_MISS"@),
        !t.contains_key((package.version, fixed)) ==> csaf_finding(package, cve, Some(data), t)
            == Answer::<Seq<char>>::Needs(package.version, fixed),
{
    lemma_csaf_at(package, cve, vulns, 0, k, t);
    lemma_first_product(items, package.name, 0, m);
    assert(names_package(items[m], package.name));
    assert(any_product(items, package.name));
    assert(has_status(status, "fixed"@, package.name));
}

/// A package that is above one that the CSAF document clears is cleared too: what is
/// found for two versions of a package differs only as far as the one is below the
/// fix and the other is not.
pub proof fn law_newer_packages_stay_clear(
    package: Package,
    newer: Package,
    cve: Seq<char>,
    data: Json,
    t: Order,
    vulns: Seq<Json>,
    k: int,
    status: Json,
    items: Seq<Json>,
    m: int,
    id: Seq<char>,
    fixed: Seq<char>,
)
    requires
        newer.name == package.name,
        data.items_field("vulnerabilities"@) == Some(vulns),
        counts_for(vulns, cve, k, status),
        status.items_field("fixed"@) == Some(items),
        is_first_product(items, package.name, m, id),
        product_version(id, package.name) == Some(fixed),
        csaf_finding(package, cve, Some(data), t) == Answer::Known("VERSION_NOT_AFFECTED"@),
        t.contains_key((newer.version, fixed)),
        t[(newer.version, fixed)] is Some,
        t.contains_key((package.version, fixed)) && t[(package.version, fixed)] is Some
            ==> t[(newer.version, fixed)]->0 >= t[(package.version, fixed)]->0,
    ensures
        csaf_finding(newer, cve, Some(data), t) == Answer::Known("VERSION_NOT_AFFECTED"@),
{
    law_fixed_version_clears(package, cve, data, t, vulns, k, status, items, m, id, fixed);
    law_fixed_version_clears(newer, cve, data, t, vulns, k, status, items, m, id, fixed);
    law_verdict_follows_finding(FINDING_TPA_MISS@);
}

/// Whether a list under a status has a product of a package.
pub open spec fn has_product(status: Json, kind: Seq<char>, name: Seq<char>) -> bool {
    status.items_field(kind) matches Some(items) && exists|i: int|
        0 <= i < items.len() && ((#[trigger] items[i]).text() matches Some(id) && product_of(
            id,
            name,
        ))
}

proof fn lemma_has_product(status: Json, kind: Seq<char>, name: Seq<char>)
    ensures
        has_status(status, kind, name) <==> has_product(status, kind, name),
{
    if let Some(items) = status.items_field(kind) {
        if any_product(items, name) {
            let i = choose|i: int| 0 <= i < items.len() && names_package(#[trigger] items[i], name);
            assert(items[i].text() matches Some(id) && product_of(id, name));
        }
        if has_product(status, kind, name) {
            let i = choose|i: int|
                0 <= i < items.len() && ((#[trigger] items[i]).text() matches Some(id)
                    && product_of(id, name));
            assert(names_package(items[i], name));
        }
    }
}

/// A miss is another package's where no product of the package is fixed, known or
/// first to be affected, first to be fixed or under investigation; where there is
/// one, but no fixed one, it stays a miss.
pub proof fn law_products_decide(
    package: Package,
    cve: Seq<char>,
    data: Json,
    t: Order,
    vulns: Seq<Json>,
    k: int,
    status: Json,
)
    requires
        data.items_field("vulnerabilities"@) == Some(vulns),
        counts_for(vulns, cve, k, status),
        !has_product(status, "fixed"@, package.name),
    ensures
        csaf_finding(package, cve, Some(data), t) == Answer::Known(
            if has_product(status, "known_affected"@, package.name) || has_product(
                status,
                "first_fixed"@,
                package.name,
            ) || has_product(status, "first_affected"@, package.name) || has_product(
                status,
                "under_investigation"@,
                package.name,
            ) {
                "TPA_MISS"@
            } else {
                "CROSS_PACKAGE"@
            },
        ),
{
    let name = package.name;
    lemma_csaf_at(package, cve, vulns, 0, k, t);
    lemma_has_product(status, "fixed"@, name);
    lemma_has_product(status, "known_affected"@, name);
    lemma_has_product(status, "first_fixed"@, name);
    lemma_has_product(status, "first_affected"@, name);
    lemma_has_product(status, "under_investigation"@, name);
    if let Some(items) = status.items_field("fixed"@) {
        assert forall|j: int| 0 <= j < items.len() implies ((#[trigger] items[j]).text() matches Some(
            id,
        ) ==> !product_of(id, name)) by {
            if let Some(id) = items[j].text() {
                if product_of(id, name) {
                    assert(items[j].text() matches Some(id) && product_of(id, name));
                }
            }
        }
        lemma_first_product(items, name, 0, items.len() as int);
    }
}

/// Without a document, or with one that says nothing of the CVE's products, a miss
/// stays one.
pub proof fn law_silent_documents_keep_a_miss(
    package: Package,
    cve: Seq<char>,
    data: Json,
    t: Order,
)
    requires
        data.items_field("vulnerabilities"@) matches Some(vulns) ==> forall|j: int|
            0 <= j < vulns.len() ==> (#[trigger] vulns[j]).text_field("cve"@) != Some(cve)
                || vulns[j].field("product_status"@) is None,
    ensures
        csaf_finding(package, cve, None, t) == Answer::Known("TPA_MISS"@),
        csaf_finding(package, cve, Some(data), t) == Answer::Known("TPA_MISS"@),
{
    if let Some(vulns) = data.items_field("vulnerabilities"@) {
        lemma_csaf_at(package, cve, vulns, 0, vulns.len() as int, t);
    }
}

/// A package whose first fixed product has no version that can be read stays missed.
pub proof fn law_unreadable_fix_keeps_a_miss(
    package: Package,
    cve: Seq<char>,
    data: Json,
    t: Order,
    vulns: Seq<Json>,
    k: int,
    status: Json,
    items: Seq<Json>,
    m: int,
    id: Seq<char>,
)
    requires
        data.items_field("vulnerabilities"@) == Some(vulns),
        counts_for(vulns, cve, k, status),
        status.items_field("fixed"@) == Some(items),
        is_first_product(items, package.name, m, id),
        product_version(id, package.name) is None,
    ensures
        csaf_finding(package, cve, Some(data), t) == Answer::Known("TPA_MISS"@),
{
    lemma_csaf_at(package, cve, vulns, 0, k, t);
    lemma_first_product(items, package.name, 0, m);
    assert(names_package(items[m], package.name));
    assert(any_product(items, package.name));
    assert(has_status(status, "fixed"@, package.name));
}

/// A product identifier is one of a package where the package's name stands in it
/// between a colon and a dash, and nowhere else.
pub proof fn law_product_has_the_name(id: Seq<char>, name: Seq<char>)
    requires
        name.len() <= 998,
    ensures
        product_of(id, name) <==> exists|i: int|
            0 <= i && i + name.len() + 2 <= id.len() && #[trigger] id[i] == ':' && id.subrange(
                i + 1,
                i + 1 + name.len(),
            ) == name && id[i + 1 + name.len()] == '-',
{
    let lead = product_lead(name);
    let n = name.len() as int;
    assert(lead.len() == n + 2);
    if product_of(id, name) {
        let i = choose|i: int| #[trigger] stands_at(lead, id, i);
        let part = id.subrange(i, i + lead.len());
        assert(part =~= lead);
        assert(part[0] == ':' && part[n + 1] == '-');
        assert(id[i] == ':');
        assert(id.subrange(i + 1, i + 1 + n) =~= name) by {
            assert forall|j: int| 0 <= j < n implies id.subrange(i + 1, i + 1 + n)[j] == name[j] by {
                assert(part[j + 1] == lead[j + 1]);
            }
        }
    }
    if exists|i: int|
        0 <= i && i + n + 2 <= id.len() && #[trigger] id[i] == ':' && id.subrange(i + 1, i + 1 + n)
            == name && id[i + 1 + n] == '-' {
        let i = choose|i: int|
            0 <= i && i + n + 2 <= id.len() && #[trigger] id[i] == ':' && id.subrange(
                i + 1,
                i + 1 + n,
            ) == name && id[i + 1 + n] == '-';
        let part = id.subrange(i, i + lead.len());
        assert forall|j: int| 0 <= j < lead.len() implies part[j] == lead[j] by {
            if 0 < j <= n {
                assert(id.subrange(i + 1, i + 1 + n)[j - 1] == name[j - 1]);
            }
        }
        assert(part =~= lead);
        assert(stands_at(lead, id, i));
    }
}

/// The version in a product identifier of a package stands between the package's
/// name, in a colon and a dash, and the first dot that a lower case letter follows.
pub proof fn law_product_version_is_read(
    before: Seq<char>,
    name: Seq<char>,
    version: Seq<char>,
    tail: Seq<char>,
)
    requires
        name.len() <= 998,
        version.len() > 0,
        tail.len() > 0,
        'a' <= tail[0] <= 'z',
        !version.contains('\n'),
        forall|k: int|
            0 < k < version.len() - 1 && #[trigger] version[k] == '.' ==> !('a' <= version[k + 1]
                <= 'z'),
        forall|j: int|
            0 <= j < before.len() ==> !#[trigger] stands_at(
                seq![':'] + name + seq!['-'],
                before + (seq![':'] + name + seq!['-']) + version + seq!['.'] + tail,
                j,
            ),
    ensures
        product_version(
            before + (seq![':'] + name + seq!['-']) + version + seq!['.'] + tail,
            name,
        ) == Some(version),
{
    law_version_is_read(before, seq![':'] + name + seq!['-'], version, tail);
}

/// The record of a CVE says that it is withdrawn where it has a member of that
/// name, whatever it holds, or where its details, in lower case, speak of a CVE
/// that is rejected or withdrawn; else it does not, and so where there is no record.
pub proof fn law_withdrawn_is_said(data: Json, details: Seq<char>)
    ensures
        data.field("withdrawn"@) is Some ==> is_withdrawn(Some(data)),
        data.text_field("details"@) == Some(details) && (occurs_in("rejected"@, lowered(details))
            || occurs_in("withdrawn"@, lowered(details))) ==> is_withdrawn(Some(data)),
        data.field("withdrawn"@) is None && data.text_field("details"@) is None ==> !is_withdrawn(
            Some(data),
        ),
        data.field("withdrawn"@) is None && data.text_field("details"@) == Some(details)
            && !occurs_in("rejected"@, lowered(details)) && !occurs_in(
            "withdrawn"@,
            lowered(details),
        ) ==> !is_withdrawn(Some(data)),
        !is_withdrawn(None),
{
}

/// A text is the identifier of an advisory of Red Hat's exactly where it is `RHSA-`,
/// `RHBA-` or `RHEA-`, a year of four digits, a colon and a number.
pub proof fn law_red_hat_ids(kind: char, year: Seq<char>, number: Seq<char>)
    requires
        is_ascii_chars(seq!['R', 'H', kind, 'A', '-'] + year + seq![':'] + number),
        year.len() == 4,
    ensures
        redhat_advisory(seq!['R', 'H', kind, 'A', '-'] + year + seq![':'] + number) <==> (kind
            == 'S' || kind == 'B' || kind == 'E') && all_digits(year) && number.len() > 0
            && all_digits(number),
{
    let id = seq!['R', 'H', kind, 'A', '-'] + year + seq![':'] + number;
    assert(id.subrange(5, 9) =~= year);
    assert(id.skip(10) =~= number);
}

/// Nothing else is the identifier of an advisory of Red Hat's.
pub proof fn law_red_hat_ids_have_a_shape(id: Seq<char>)
    requires
        is_ascii_chars(id),
        redhat_advisory(id),
    ensures
        id.len() > 10,
        id == seq!['R', 'H', id[2], 'A', '-'] + id.subrange(5, 9) + seq![':'] + id.skip(10),
{
    assert(id =~= seq!['R', 'H', id[2], 'A', '-'] + id.subrange(5, 9) + seq![':'] + id.skip(10));
}

/// The version in a product identifier of a package is that of the first place where
/// the package's name, in a colon and a dash, has one behind it.
pub proof fn law_first_product_version_counts(id: Seq<char>, name: Seq<char>, i: int, end: int)
    requires
        name.len() <= 998,
    ensures
        ({
            let lead = seq![':'] + name + seq!['-'];
            &&& versioned_at(lead, id, i, end) && (forall|j: int, e: int|
                0 <= j < i ==> !#[trigger] versioned_at(lead, id, j, e)) ==> product_version(
                id,
                name,
            ) == Some(id.subrange(i + lead.len(), end))
            &&& (forall|j: int, e: int| !#[trigger] versioned_at(lead, id, j, e))
                ==> product_version(id, name) is None
        }),
{
    law_first_version_counts(seq![':'] + name + seq!['-'], id, i, end);
}

/// An executable answer says what it stands for: a finding where one is known, and else
/// the two versions that have to be compared.
pub proof fn law_finding_is_said(r: Asked<&'static str>, expected: Answer<Seq<char>>)
    requires
        finding_is(r, expected),
    ensures
        r is Known <==> expected is Known,
        r matches Asked::Known(finding) ==> (expected matches Answer::Known(found) ==> finding@
            == found),
        r matches Asked::Needs(a, b) ==> (expected matches Answer::Needs(x, y) ==> a@ == x && b@
            == y),
{
}

} // verus!
