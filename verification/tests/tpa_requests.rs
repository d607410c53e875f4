use trust_breaker::str_map::StrMap;
use trust_breaker::tpa_analyze::{
    analyze_body, bearer, extract_tpa_headers, filter_purls, is_purl_valid_for_tpa,
    merge_tpa_chunks, tpa_chunks, tpa_endpoint, AffContent, Affected, Labels, PackageResponse,
    Score, TPAHeaders, TPAResponse, Vulnerability,
};

fn strings(v: Vec<&str>) -> Vec<String> {
    v.into_iter().map(|s| s.to_string()).collect()
}

#[test]
fn a_namespace_where_the_type_has_none_is_not_taken() {
    for kind in ["cargo", "golang", "pypi", "nuget", "gem"] {
        assert!(!is_purl_valid_for_tpa(&format!("pkg:{}/ns/name@1.0", kind)));
        assert!(is_purl_valid_for_tpa(&format!("pkg:{}/name@1.0", kind)));
        assert!(is_purl_valid_for_tpa(&format!("pkg:{}/ns/name", kind)));
    }
    assert!(is_purl_valid_for_tpa("pkg:rpm/redhat/bash@5"));
    assert!(!is_purl_valid_for_tpa("pkg:golang/github.com/a/b@1"));
    assert!(is_purl_valid_for_tpa("golang/a/b@1"));
    assert!(is_purl_valid_for_tpa(""));
}

#[test]
fn what_is_taken_keeps_its_order() {
    let kept = filter_purls(strings(vec!["pkg:rpm/r/a@1", "pkg:gem/ns/x@1", "pkg:gem/x@1"]));
    assert_eq!(kept, strings(vec!["pkg:rpm/r/a@1", "pkg:gem/x@1"]));
}

#[test]
fn requests_hold_a_few_packages_each() {
    let many: Vec<String> = (0..60).map(|i| i.to_string()).collect();
    assert_eq!(tpa_chunks(&many).iter().map(|c| c.len()).collect::<Vec<_>>(), vec![25, 25, 10]);
}

#[test]
fn a_request_is_spelled_out() {
    assert_eq!(tpa_endpoint("https://t"), "https://t/api/v2/vulnerability/analyze");
    assert_eq!(analyze_body(&strings(vec![])), "{\"purls\":[]}");
    assert_eq!(analyze_body(&strings(vec!["a"])), "{\"purls\":[\"a\"]}");
    assert_eq!(analyze_body(&strings(vec!["a", "b", "c"])), "{\"purls\":[\"a\",\"b\",\"c\"]}");
}

#[test]
fn a_token_that_is_not_blank_authorizes() {
    assert_eq!(bearer(Some("abc")), Some("Bearer abc".to_string()));
    assert_eq!(bearer(Some("")), None);
    assert_eq!(bearer(None), None);
}

fn score(value: &str, kind: &str) -> Score {
    Score { cvssType: kind.to_string(), value: value.to_string(), severity: "high".to_string() }
}

fn content(id: &str, source: &str, scores: Vec<Score>) -> AffContent {
    AffContent {
        identifier: id.to_string(),
        title: "t".to_string(),
        labels: Labels { importerType: source.to_string() },
        scores,
    }
}

#[test]
fn each_score_becomes_a_record() {
    let mut response: StrMap<PackageResponse> = StrMap::new();
    response.insert(
        "p".to_string(),
        PackageResponse {
            details: vec![
                Vulnerability {
                    identifier: "CVE-1".to_string(),
                    status: Affected {
                        affected: vec![
                            content("A", "csaf", vec![score("7.5", "3.1"), score("8", "4.0")]),
                            content("B", "osv", vec![]),
                        ],
                    },
                },
                Vulnerability {
                    identifier: "CVE-2".to_string(),
                    status: Affected { affected: vec![content("C", "osv", vec![score("1", "3.0")])] },
                },
            ],
        },
    );
    response.insert("q".to_string(), PackageResponse { details: vec![] });
    let records = extract_tpa_headers(TPAResponse { tpa_response: response });
    let cells: Vec<Vec<String>> = records
        .into_iter()
        .map(|r| vec![r.PURL, r.CVE_ID, r.OSV_ID, r.CVSS, r.CVSSType, r.Source])
        .collect();
    assert_eq!(
        cells,
        vec![
            strings(vec!["p", "CVE-1", "A", "7.5", "3.1", "csaf"]),
            strings(vec!["p", "CVE-1", "A", "8", "4.0", "csaf"]),
            strings(vec!["p", "CVE-2", "C", "1", "3.0", "osv"]),
        ]
    );
}

fn header(purl: &str) -> TPAHeaders {
    TPAHeaders {
        PURL: purl.to_string(),
        CVE_ID: "CVE-1".to_string(),
        OSV_ID: "A".to_string(),
        CVSS: "7.5".to_string(),
        CVSSType: "3.1".to_string(),
        Source: "csaf".to_string(),
    }
}

#[test]
fn the_records_of_the_chunks_are_joined_in_order() {
    let joined = merge_tpa_chunks(vec![
        None,
        Some(vec![header("b"), header("a")]),
        Some(vec![]),
        None,
        Some(vec![header("c"), header("a")]),
        None,
    ]);
    let purls: Vec<&str> = joined.iter().map(|h| h.PURL.as_str()).collect();
    assert_eq!(purls, vec!["b", "a", "c", "a"]);
    assert!(merge_tpa_chunks(vec![]).is_empty());
    assert!(merge_tpa_chunks(vec![None, None]).is_empty());
}
