use trust_breaker::sbom::{
    latest_file, purls_from_text, purls_to_text, sbom_kind, source_file, tpa_file, SbomKind,
};

fn strings(v: Vec<&str>) -> Vec<String> {
    v.into_iter().map(|s| s.to_string()).collect()
}

#[test]
fn the_forms_of_bills_are_told_by_name() {
    assert_eq!(sbom_kind("cdx"), Some(SbomKind::CycloneDx));
    assert_eq!(sbom_kind("spdx"), Some(SbomKind::Spdx));
    assert_eq!(sbom_kind("CDX"), None);
    assert_eq!(sbom_kind(""), None);
}

#[test]
fn files_are_named_by_form_content_and_time() {
    assert_eq!(
        source_file("cdx", "purls", "20240124_101112", "txt"),
        "test_results/source/cdx_purls_20240124_101112.txt"
    );
    assert_eq!(
        source_file("spdx", "osv_querybatch", "t", "csv"),
        "test_results/source/spdx_osv_querybatch_t.csv"
    );
    assert_eq!(tpa_file("t", "json"), "test_results/source/tpa_response_t.json");
}

#[test]
fn package_urls_are_read_line_by_line() {
    assert_eq!(
        purls_from_text("  pkg:a@1 \r\n\n\t\npkg:b@2\n pkg:c@3"),
        strings(vec!["pkg:a@1", "pkg:b@2", "pkg:c@3"])
    );
    assert!(purls_from_text("\n \n").is_empty());
}

#[test]
fn package_urls_that_are_written_read_back() {
    let purls = strings(vec!["pkg:a@1", "pkg:b@2?x=1", "pkg:c"]);
    assert_eq!(purls_to_text(&purls), "pkg:a@1\npkg:b@2?x=1\npkg:c\n");
    assert_eq!(purls_from_text(&purls_to_text(&purls)), purls);
    assert_eq!(purls_to_text(&vec![]), "");
}

#[test]
fn the_latest_file_is_the_last_by_name() {
    assert_eq!(latest_file(&vec![]), None);
    let names = strings(vec!["d/cdx_2024.csv", "d/cdx_2025.csv", "d/cdx_2024.csv.bak"]);
    assert_eq!(latest_file(&names), Some("d/cdx_2025.csv".to_string()));
    let names = strings(vec!["b", "a", "ab"]);
    let mut sorted = names.clone();
    sorted.sort();
    assert_eq!(latest_file(&names).as_ref(), sorted.last());
    let names = strings(vec!["\u{10000}", "\u{ffff}"]);
    assert_eq!(latest_file(&names), Some("\u{10000}".to_string()));
}
