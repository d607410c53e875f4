use trust_breaker::categorize::{
    advisory_cves, categorize_row, check_cve_withdrawn, classify_advisory,
    csaf_product_matches_package, csaf_product_version, csaf_verify_tpa_miss,
    details_say_withdrawn, finding_priority, finding_to_verdict, is_redhat_advisory, Category,
};
use trust_breaker::json::Json;
use trust_breaker::rpm::{parse_rpm_purl, RpmPurl};
use trust_breaker::str_map::StrMap;
use trust_breaker::versions::{Asked, Comparisons};

fn text(s: &str) -> Json {
    Json::Text(s.to_string())
}

fn list(items: Vec<Json>) -> Json {
    Json::Array(items)
}

fn object(members: Vec<(&str, Json)>) -> Json {
    Json::Object(members.into_iter().map(|(k, v)| (k.to_string(), v)).collect())
}

fn zlib() -> RpmPurl {
    parse_rpm_purl("pkg:rpm/redhat/zlib@1.2.11-40.el9").unwrap()
}

fn affected(name: &str, ecosystem: &str, versions: Vec<&str>) -> Json {
    object(vec![
        ("package", object(vec![("name", text(name)), ("ecosystem", text(ecosystem))])),
        ("versions", list(versions.into_iter().map(text).collect())),
    ])
}

fn advisory(id: &str, cve: &str, entries: Vec<Json>) -> Json {
    object(vec![
        ("id", text(id)),
        ("upstream", list(vec![text(cve)])),
        ("affected", list(entries)),
    ])
}

const RHEL9: &str = "Red Hat:enterprise_linux:9::baseos";
const RHEL8: &str = "Red Hat:enterprise_linux:8::baseos";

fn finding(data: &Json) -> (String, String) {
    match classify_advisory(&zlib(), "CVE-2022-1", data, &Comparisons::new()) {
        Asked::Known((finding, id)) => (finding.to_string(), id),
        Asked::Needs(a, b) => panic!("{} {}", a, b),
    }
}

#[test]
fn a_miss_counts_most_and_the_unknown_least() {
    let order = [
        "TPA_MISS",
        "VERSION_NOT_AFFECTED",
        "ECOSYSTEM_MISMATCH",
        "CROSS_PACKAGE",
        "CVE_WITHDRAWN",
        "UNKNOWN",
    ];
    for (i, finding) in order.iter().enumerate() {
        assert_eq!(finding_priority(finding) as usize, i);
    }
    assert_eq!(finding_priority("anything"), 5);
}

#[test]
fn the_verdict_follows_the_finding() {
    assert_eq!(finding_to_verdict("TPA_MISS"), "TPA_GAP");
    for finding in ["VERSION_NOT_AFFECTED", "ECOSYSTEM_MISMATCH", "CROSS_PACKAGE", "CVE_WITHDRAWN"] {
        assert_eq!(finding_to_verdict(finding), "OSV_NOISE");
    }
    assert_eq!(finding_to_verdict("UNKNOWN"), "");
    assert_eq!(finding_to_verdict(""), "");
}

#[test]
fn advisories_of_red_hat_are_told_by_their_id() {
    assert!(is_redhat_advisory("RHSA-2024:1234"));
    assert!(is_redhat_advisory("RHBA-2024:1"));
    assert!(is_redhat_advisory("RHEA-0000:00001"));
    assert!(!is_redhat_advisory("RHXA-2024:1234"));
    assert!(!is_redhat_advisory("RHSA-2024:"));
    assert!(!is_redhat_advisory("RHSA-24:1234"));
    assert!(!is_redhat_advisory("xRHSA-2024:1234"));
    assert!(!is_redhat_advisory("RHSA-2024:1234\n"));
    assert!(!is_redhat_advisory("GHSA-xxxx"));
    assert!(is_redhat_advisory("RHSA-2024:\u{0661}"));
}

#[test]
fn the_cves_of_an_advisory_are_those_upstream_and_then_the_aliases() {
    let data = object(vec![
        ("aliases", list(vec![text("CVE-2"), text("GHSA-1")])),
        ("upstream", list(vec![text("CVE-1"), Json::Null, text("cve-3")])),
    ]);
    assert_eq!(advisory_cves(&data), vec!["CVE-1", "CVE-2"]);
    assert!(advisory_cves(&Json::Null).is_empty());
}

#[test]
fn an_affected_version_is_a_miss() {
    let data = advisory("RHSA-2022:1", "CVE-2022-1", vec![affected("zlib", RHEL9, vec!["1.2.11-40.el9"])]);
    assert_eq!(finding(&data), ("TPA_MISS".to_string(), "RHSA-2022:1".to_string()));
}

#[test]
fn another_version_release_or_package_is_told_apart() {
    let data = advisory("RHSA-2022:1", "CVE-2022-1", vec![affected("zlib", RHEL9, vec!["1"])]);
    assert_eq!(finding(&data).0, "VERSION_NOT_AFFECTED");
    let data = advisory("RHSA-2022:1", "CVE-2022-1", vec![affected("zlib", RHEL8, vec!["1.2.11-40.el9"])]);
    assert_eq!(finding(&data).0, "ECOSYSTEM_MISMATCH");
    let data = advisory("RHSA-2022:1", "CVE-2022-1", vec![affected("bash", RHEL9, vec!["1.2.11-40.el9"])]);
    assert_eq!(finding(&data).0, "UNKNOWN");
}

#[test]
fn the_entry_that_counts_most_decides() {
    let data = advisory(
        "RHSA-2022:1",
        "CVE-2022-1",
        vec![
            affected("zlib", RHEL8, vec![]),
            affected("zlib", RHEL9, vec!["1.2.11-40.el9"]),
            affected("zlib", RHEL9, vec!["1"]),
        ],
    );
    assert_eq!(finding(&data).0, "TPA_MISS");
}

#[test]
fn other_advisories_and_other_cves_say_nothing() {
    let entries = || vec![affected("zlib", RHEL9, vec!["1.2.11-40.el9"])];
    let data = advisory("GHSA-1", "CVE-2022-1", entries());
    assert_eq!(finding(&data), ("UNKNOWN".to_string(), "GHSA-1".to_string()));
    let data = advisory("RHSA-2022:1", "CVE-2022-2", entries());
    assert_eq!(finding(&data), ("UNKNOWN".to_string(), "RHSA-2022:1".to_string()));
    assert_eq!(finding(&Json::Null), ("UNKNOWN".to_string(), String::new()));
}

#[test]
fn products_are_matched_by_the_package_name() {
    assert!(csaf_product_matches_package("BaseOS-9:zlib-0:1.2.11-40.el9.x86_64", "zlib"));
    assert!(!csaf_product_matches_package("BaseOS-9:zlib-devel", "lib"));
    assert!(csaf_product_matches_package("BaseOS-9:zlib-devel-0:1.el9.x86_64", "zlib"));
    assert!(csaf_product_matches_package("x:libstdc++-0:1.x86_64", "libstdc++"));
    assert!(!csaf_product_matches_package("x:libstdcc-0:1.x86_64", "libstdc++"));
    assert!(!csaf_product_matches_package("zlib-0:1", "zlib"));
}

#[test]
fn the_version_of_a_product_ends_before_the_architecture() {
    assert_eq!(
        csaf_product_version("BaseOS-9:zlib-0:1.2.11-41.el9.x86_64", "zlib"),
        Some("0:1.2.11-41".to_string())
    );
    assert_eq!(csaf_product_version("BaseOS-9:zlib-1.2.3", "zlib"), None);
    assert_eq!(csaf_product_version("BaseOS-9:zlib", "zlib"), None);
}

fn csaf(cve: &str, status: Vec<(&str, Vec<&str>)>) -> Json {
    object(vec![(
        "vulnerabilities",
        list(vec![object(vec![
            ("cve", text(cve)),
            (
                "product_status",
                object(
                    status
                        .into_iter()
                        .map(|(k, v)| (k, list(v.into_iter().map(text).collect())))
                        .collect(),
                ),
            ),
        ])]),
    )])
}

fn csaf_says(data: Option<&Json>, t: &Comparisons) -> String {
    match csaf_verify_tpa_miss(&zlib(), "CVE-2022-1", "RHSA-2022:1", data, t) {
        Asked::Known(finding) => finding.to_string(),
        Asked::Needs(a, b) => format!("{} ? {}", a, b),
    }
}

#[test]
fn without_a_csaf_document_a_miss_stays_one() {
    let t = Comparisons::new();
    assert_eq!(csaf_says(None, &t), "TPA_MISS");
    assert_eq!(csaf_says(Some(&Json::Null), &t), "TPA_MISS");
    assert_eq!(csaf_says(Some(&csaf("CVE-2022-2", vec![])), &t), "TPA_MISS");
}

#[test]
fn a_package_that_is_not_affected_is_another_one() {
    let t = Comparisons::new();
    let data = csaf("CVE-2022-1", vec![("known_not_affected", vec!["B:zlib-0:1.el9.x"])]);
    assert_eq!(csaf_says(Some(&data), &t), "CROSS_PACKAGE");
    let data = csaf("CVE-2022-1", vec![("fixed", vec!["B:bash-0:1.el9.x"])]);
    assert_eq!(csaf_says(Some(&data), &t), "CROSS_PACKAGE");
    let data = csaf(
        "CVE-2022-1",
        vec![
            ("known_not_affected", vec!["B:zlib-0:1.el9.x"]),
            ("known_affected", vec!["C:zlib-0:1.el9.x"]),
        ],
    );
    assert_eq!(csaf_says(Some(&data), &t), "TPA_MISS");
}

#[test]
fn a_fix_at_or_below_the_version_clears_a_miss() {
    let mut t = Comparisons::new();
    let data = csaf("CVE-2022-1", vec![("fixed", vec!["B:bash-0:1.el9.x", "B:zlib-0:1.2.11-41.el9.x"])]);
    assert_eq!(csaf_says(Some(&data), &t), "1.2.11-40.el9 ? 0:1.2.11-41");
    t.record("1.2.11-40.el9", "0:1.2.11-41", Some(-1));
    assert_eq!(csaf_says(Some(&data), &t), "TPA_MISS");
    let mut t = Comparisons::new();
    t.record("1.2.11-40.el9", "0:1.2.11-41", Some(0));
    assert_eq!(csaf_says(Some(&data), &t), "VERSION_NOT_AFFECTED");
    let mut t = Comparisons::new();
    t.record("1.2.11-40.el9", "0:1.2.11-41", None);
    assert_eq!(csaf_says(Some(&data), &t), "TPA_MISS");
}

#[test]
fn a_fix_without_a_version_leaves_the_miss() {
    let t = Comparisons::new();
    let data = csaf("CVE-2022-1", vec![("fixed", vec!["B:zlib-1", "B:zlib-0:1.2.11-41.el9.x"])]);
    assert_eq!(csaf_says(Some(&data), &t), "TPA_MISS");
}

#[test]
fn withdrawn_and_rejected_cves_are_recognized() {
    assert!(!check_cve_withdrawn(None));
    assert!(check_cve_withdrawn(Some(&object(vec![("withdrawn", text("2024"))]))));
    assert!(check_cve_withdrawn(Some(&object(vec![("withdrawn", Json::Null)]))));
    assert!(check_cve_withdrawn(Some(&object(vec![("details", text("** ReJECTed **"))]))));
    assert!(check_cve_withdrawn(Some(&object(vec![("details", text("It was WITHDRAWN."))]))));
    assert!(!check_cve_withdrawn(Some(&object(vec![("details", text("A flaw."))]))));
    assert!(!check_cve_withdrawn(Some(&object(vec![("details", Json::Null)]))));
    assert!(details_say_withdrawn("rejected"));
    assert!(!details_say_withdrawn("REJECTED"));
}

fn row(purl: &str, advisories: &StrMap<Vec<String>>, data: &StrMap<Json>) -> Category {
    match categorize_row(purl, "CVE-2022-1", advisories, data, &Comparisons::new()) {
        Asked::Known(category) => category,
        Asked::Needs(a, b) => panic!("{} {}", a, b),
    }
}

#[test]
fn a_row_gets_the_finding_that_counts_most_of_its_advisories() {
    let purl = "pkg:rpm/redhat/zlib@1.2.11-40.el9";
    let mut advisories: StrMap<Vec<String>> = StrMap::new();
    advisories.insert(
        purl.to_string(),
        vec!["gone".to_string(), "a".to_string(), "b".to_string(), "c".to_string()],
    );
    let mut data: StrMap<Json> = StrMap::new();
    data.insert(
        "a".to_string(),
        advisory("RHSA-2022:1", "CVE-2022-1", vec![affected("zlib", RHEL8, vec![])]),
    );
    data.insert(
        "b".to_string(),
        advisory("RHSA-2022:2", "CVE-2022-1", vec![affected("zlib", RHEL9, vec![])]),
    );
    data.insert(
        "c".to_string(),
        advisory("RHSA-2022:3", "CVE-2022-1", vec![affected("zlib", RHEL9, vec![])]),
    );
    let category = row(purl, &advisories, &data);
    assert_eq!(category.finding, "VERSION_NOT_AFFECTED");
    assert_eq!(category.verdict, "OSV_NOISE");
    assert_eq!(category.matched_advisory, "RHSA-2022:2");
}

#[test]
fn a_row_without_advisories_or_of_another_kind_stays_unknown() {
    let advisories: StrMap<Vec<String>> = StrMap::new();
    let data: StrMap<Json> = StrMap::new();
    for purl in ["pkg:rpm/redhat/zlib@1", "pkg:npm/left-pad@1"] {
        let category = row(purl, &advisories, &data);
        assert_eq!(category.finding, "UNKNOWN");
        assert_eq!(category.verdict, "");
        assert_eq!(category.matched_advisory, "");
    }
}
