use trust_breaker::advisories::collect_purl_advisories;
use trust_breaker::chunks::split_into_chunks;
use trust_breaker::osv::{
    build_osv_querybatch_request, OsvQuerybatchResponse, OsvVulnId, OsvVulns,
};
use trust_breaker::osv_batch::{merge_chunk_results, osv_chunks, Paging};
use trust_breaker::osv_details::{alias_or_blank, resolved_headers, OSVAlias, OSVSeverity};
use trust_breaker::osv_index::{index_by_purl, map_advisories, querybatch_rows};
use trust_breaker::osv_packages::{
    advisory_ids, get_osv_payload, get_package_vulnmap, osv_rows, osv_vulnerabilities,
    remove_dep_without_vulns, Depends, OSVResults, Vulnerability, Vulns,
};
use trust_breaker::scores::{get_cvss, score_or_zero};
use trust_breaker::str_map::StrMap;

fn strings(v: Vec<&str>) -> Vec<String> {
    v.into_iter().map(|s| s.to_string()).collect()
}

fn vulns(ids: Vec<&str>, token: Option<&str>) -> OsvVulns {
    OsvVulns {
        vulns: ids
            .into_iter()
            .map(|id| OsvVulnId { id: id.to_string(), modified: Some(format!("m{}", id)) })
            .collect(),
        next_page_token: token.map(|t| t.to_string()),
    }
}

fn ids(answer: &OsvVulns) -> Vec<String> {
    answer.iter_vulns().map(|v| v.id.clone()).collect()
}

fn alias(aliases: Vec<&str>, upstream: Vec<&str>, scores: Vec<&str>) -> OSVAlias {
    OSVAlias {
        aliases: strings(aliases),
        upstream: strings(upstream),
        severity: scores
            .into_iter()
            .map(|s| OSVSeverity { cvsstype: "CVSS".to_string(), score: s.to_string() })
            .collect(),
    }
}

const V3: &str = "CVSS:3.1/AV:N/AC:L/PR:N/UI:N/S:U/C:H/I:H/A:H";
const V4: &str = "CVSS:4.0/AV:N/AC:L/AT:N/PR:N/UI:N/VC:H/VI:H/VA:H/SC:N/SI:N/SA:N";

#[test]
fn a_request_asks_for_the_page_behind_each_token() {
    let purls = strings(vec!["p", "q", "r"]);
    let tokens = vec![None, Some("t".to_string())];
    let request = build_osv_querybatch_request(&purls, Some(&tokens));
    assert_eq!(request.queries.len(), 3);
    assert_eq!(request.queries[0].package.purl, "p");
    assert_eq!(request.queries[0].page_token, None);
    assert_eq!(request.queries[1].page_token, Some("t".to_string()));
    assert_eq!(request.queries[2].page_token, None);
    let request = build_osv_querybatch_request(&purls, None);
    assert!(request.queries.iter().all(|q| q.page_token.is_none()));
}

#[test]
fn pages_are_gathered_until_no_token_is_left() {
    let purls = strings(vec!["p", "q"]);
    let mut paging = Paging::new(2);
    assert!(paging.request(&purls).queries.iter().all(|q| q.page_token.is_none()));
    let page = OsvQuerybatchResponse {
        results: vec![vulns(vec!["a"], Some("t")), vulns(vec!["x"], None)],
    };
    assert_eq!(page.iter_results().count(), 2);
    assert_eq!(paging.absorb(page), Ok(true));
    let request = paging.request(&purls);
    assert_eq!(request.queries[0].page_token, Some("t".to_string()));
    assert_eq!(request.queries[1].page_token, None);
    let page = OsvQuerybatchResponse { results: vec![vulns(vec!["b"], None), vulns(vec!["x"], None)] };
    assert_eq!(paging.absorb(page), Ok(false));
    let answers = paging.finish();
    assert_eq!(ids(&answers[0]), strings(vec!["a", "b"]));
    assert_eq!(ids(&answers[1]), strings(vec!["x", "x"]));
    assert!(answers.iter().all(|a| a.next_page_token.is_none()));
}

#[test]
fn a_page_with_the_wrong_number_of_answers_is_refused() {
    let mut paging = Paging::new(12);
    let page = OsvQuerybatchResponse { results: vec![vulns(vec!["a"], None)] };
    assert_eq!(
        paging.absorb(page),
        Err("OSV querybatch returned 1 results for 12 queries".to_string())
    );
    assert!(paging.finish().iter().all(|a| a.vulns.is_empty()));
}

#[test]
fn lists_are_cut_into_chunks() {
    let all: Vec<String> = (0..7).map(|i| i.to_string()).collect();
    let chunks = split_into_chunks(&all, 3);
    assert_eq!(chunks.iter().map(|c| c.len()).collect::<Vec<_>>(), vec![3, 3, 1]);
    assert_eq!(chunks.concat(), all);
    assert!(split_into_chunks(&vec![], 3).is_empty());
    let many: Vec<String> = (0..250).map(|i| i.to_string()).collect();
    assert_eq!(osv_chunks(&many).iter().map(|c| c.len()).collect::<Vec<_>>(), vec![100, 100, 50]);
}

#[test]
fn answers_stay_in_the_order_of_the_packages() {
    let chunks = split_into_chunks(&strings(vec!["p", "q", "r", "s", "t"]), 2);
    let results = vec![
        Some(vec![vulns(vec!["a"], None), vulns(vec![], None)]),
        None,
        Some(vec![vulns(vec!["e"], None)]),
    ];
    let (merged, failed) = merge_chunk_results(&chunks, results);
    assert_eq!(failed, 1);
    assert_eq!(merged.len(), 5);
    assert_eq!(ids(&merged[0]), strings(vec!["a"]));
    assert!(merged[2].vulns.is_empty() && merged[3].vulns.is_empty());
    assert_eq!(ids(&merged[4]), strings(vec!["e"]));
}

#[test]
fn the_last_answer_for_a_package_counts() {
    let by_purl = index_by_purl(
        &strings(vec!["p", "q", "p", "r"]),
        vec![vulns(vec!["a"], None), vulns(vec!["b"], None), vulns(vec!["c"], None)],
    );
    assert_eq!(by_purl.len(), 2);
    assert_eq!(ids(by_purl.get("p").unwrap()), strings(vec!["c"]));
    assert_eq!(ids(by_purl.get("q").unwrap()), strings(vec!["b"]));
    assert!(by_purl.get("r").is_none());
}

#[test]
fn rows_read_back_as_the_advisories_of_each_package() {
    let by_purl = index_by_purl(
        &strings(vec!["p", "q", "r"]),
        vec![vulns(vec!["a", "b"], None), vulns(vec![], None), vulns(vec!["a"], None)],
    );
    let rows = querybatch_rows(&by_purl);
    let cells: Vec<Vec<String>> = rows
        .iter()
        .map(|r| vec![r.PURL.clone(), r.OSV_ID.clone(), r.MODIFIED.clone()])
        .collect();
    assert_eq!(
        cells,
        vec![
            strings(vec!["p", "a", "ma"]),
            strings(vec!["p", "b", "mb"]),
            strings(vec!["q", "", ""]),
            strings(vec!["r", "a", "ma"]),
        ]
    );
    let back = collect_purl_advisories(&strings(vec!["PURL", "OSV_ID", "MODIFIED"]), &cells);
    assert_eq!(back.get("p").unwrap(), &strings(vec!["a", "b"]));
    assert!(back.get("q").is_none());
    assert_eq!(back.get("r").unwrap(), &strings(vec!["a"]));
}

#[test]
fn packages_are_listed_by_advisory() {
    let by_purl = index_by_purl(
        &strings(vec!["p", "q"]),
        vec![vulns(vec!["a", "b", "a"], None), vulns(vec!["a"], None)],
    );
    let found = map_advisories(&by_purl);
    assert_eq!(found.len(), 2);
    assert_eq!(found.get("a").unwrap(), &strings(vec!["p", "p", "q"]));
    assert_eq!(found.get("b").unwrap(), &strings(vec!["p"]));
}

#[test]
fn the_cves_of_an_advisory_come_upstream_first() {
    let detail = alias(vec!["CVE-2", "GHSA-1"], vec!["CVE-1", "x"], vec![]);
    assert_eq!(detail.get_cve_ids(), vec!["CVE-1", "CVE-2"]);
    assert_eq!(detail.get_alias(), &strings(vec!["CVE-2", "GHSA-1"]));
}

#[test]
fn the_first_vector_of_a_known_sort_is_taken() {
    assert_eq!(alias(vec![], vec![], vec!["7.5", V4, V3]).cvss_vector(), Some(V4.to_string()));
    assert_eq!(alias(vec![], vec![], vec!["7.5"]).cvss_vector(), None);
    assert_eq!(alias(vec![], vec![], vec!["x CVSS:3"]).cvss_vector(), Some("x CVSS:3".to_string()));
}

#[test]
fn vectors_are_scored() {
    assert_eq!(get_cvss(V3.to_string(), "CVE-1"), "9.8");
    assert_eq!(
        get_cvss("CVSS:3.0/AV:N/AC:L/PR:N/UI:R/S:C/C:L/I:L/A:N".to_string(), "CVE-1"),
        "6.1"
    );
    assert_eq!(
        get_cvss("CVSS:3.1/AV:N/AC:L/PR:N/UI:N/S:C/C:H/I:H/A:H".to_string(), "CVE-1"),
        "10"
    );
    assert_eq!(get_cvss(V4.to_string(), "CVE-1"), "9.3");
}

#[test]
fn a_vector_that_is_not_taken_scores_zero_and_one_of_no_version_nothing() {
    assert_eq!(get_cvss("CVSS:3.2/AV:N".to_string(), "CVE-1"), "0.0");
    assert_eq!(get_cvss("CVSS:3.1/XX:N".to_string(), "CVE-1"), "0.0");
    assert_eq!(get_cvss("CVSS:4.0/AV:N".to_string(), "CVE-1"), "0.0");
    assert_eq!(get_cvss("CVSS:4.1/AV:N".to_string(), "CVE-1"), "0.0");
    assert_eq!(get_cvss("AV:N/AC:L/Au:N/C:P/I:P/A:P".to_string(), "CVE-1"), "");
    assert_eq!(score_or_zero(None), "0.0");
    assert_eq!(score_or_zero(Some("5.1".to_string())), "5.1");
}

#[test]
fn resolved_advisories_become_one_record_per_pair() {
    let mut advisories: StrMap<Vec<String>> = StrMap::new();
    advisories.insert("A".to_string(), strings(vec!["p", "q"]));
    advisories.insert("B".to_string(), strings(vec!["p"]));
    advisories.insert("C".to_string(), strings(vec!["q"]));
    advisories.insert("D".to_string(), strings(vec!["q"]));
    let mut resolved: StrMap<OSVAlias> = StrMap::new();
    resolved.insert("A".to_string(), alias(vec!["CVE-1"], vec![], vec![V3]));
    resolved.insert("B".to_string(), alias(vec!["CVE-1"], vec!["CVE-2"], vec![]));
    resolved.insert("C".to_string(), alias(vec!["GHSA-1"], vec![], vec![V3]));
    let found: Vec<(String, String, String)> = resolved_headers(&advisories, &resolved)
        .into_iter()
        .map(|h| (h.PURL, h.CVE_ID, h.CVSS))
        .collect();
    let three = |a: &str, b: &str, c: &str| (a.to_string(), b.to_string(), c.to_string());
    assert_eq!(
        found,
        vec![
            three("p", "CVE-1", "9.8"),
            three("q", "CVE-1", "9.8"),
            three("p", "CVE-2", ""),
            three("q", "C", ""),
        ]
    );
}

#[test]
fn the_question_about_one_package_is_spelled_out() {
    assert_eq!(
        get_osv_payload("pkg:npm/x@1".to_string()),
        "{\"queries\": [{\"package\": {\"purl\": \"pkg:npm/x@1\"}}]}"
    );
}

#[test]
fn the_vulnerabilities_of_a_package_are_named_once() {
    let response = OsvQuerybatchResponse {
        results: vec![vulns(vec!["a", "b"], None), vulns(vec![], None), vulns(vec!["c"], None)],
    };
    assert_eq!(advisory_ids(&response), strings(vec!["a", "b", "c"]));
    let details = vec![
        alias(vec!["CVE-1", "GHSA-1", "x CVE"], vec![], vec![V3]),
        alias(vec![], vec!["CVE-9"], vec![V3]),
        alias(vec!["CVE-1"], vec![], vec![V3]),
        alias(vec!["CVE-1"], vec![], vec![]),
    ];
    let found: Vec<(String, String)> = osv_vulnerabilities(&details)
        .unwrap()
        .into_iter()
        .map(|v| (v.id, v.cvssScore))
        .collect();
    let two = |a: &str, b: &str| (a.to_string(), b.to_string());
    assert_eq!(found, vec![two("CVE-1", "9.8"), two("x CVE", "9.8"), two("CVE-1", "")]);
    assert!(osv_vulnerabilities(&vec![]).unwrap().is_empty());
}

#[test]
fn packages_without_vulnerabilities_are_left_out() {
    let mut map: StrMap<Option<Vec<Vulnerability>>> = StrMap::new();
    map.insert("p".to_string(), Some(vec![Vulnerability::new("CVE-1", "5".to_string())]));
    map.insert("q".to_string(), Some(vec![]));
    map.insert(
        "r".to_string(),
        Some(vec![
            Vulnerability::new("CVE-2", "6".to_string()),
            Vulnerability::new("CVE-3", String::new()),
        ]),
    );
    let kept = remove_dep_without_vulns(map);
    assert_eq!(kept.len(), 2);
    assert!(!kept.contains_key("q"));
    let rows: Vec<(String, String, String)> =
        osv_rows(&kept).into_iter().map(|h| (h.PURL, h.CVE_ID, h.CVSS)).collect();
    let three = |a: &str, b: &str, c: &str| (a.to_string(), b.to_string(), c.to_string());
    assert_eq!(
        rows,
        vec![three("p", "CVE-1", "5"), three("r", "CVE-2", "6"), three("r", "CVE-3", "")]
    );
}

#[test]
fn a_package_is_found_with_its_vulnerabilities() {
    let mut map: StrMap<Option<Vec<Vulnerability>>> = StrMap::new();
    map.insert("p".to_string(), Some(vec![Vulnerability::new("CVE-1", "5".to_string())]));
    map.insert("q".to_string(), None);
    let found = get_package_vulnmap("p".to_string(), map);
    assert_eq!(found.reference, "p");
    assert_eq!(found.vulnerabilities.unwrap()[0].id, "CVE-1");
}

#[test]
fn results_hold_what_they_are_made_of() {
    let depends = Depends::new("d".to_string(), None);
    let results = OSVResults::new("r".to_string(), Some(vec![]), Some(vec![depends]));
    assert_eq!(results.reference, "r");
    assert!(results.issues.unwrap().is_empty());
    assert_eq!(results.transitive.unwrap()[0].reference, "d");
    assert!(Vulns::new(None).vulnerabilities.is_none());
}

#[test]
fn an_advisory_without_an_answer_is_blank() {
    let blank = alias_or_blank(None);
    assert!(blank.aliases.is_empty() && blank.upstream.is_empty() && blank.severity.is_empty());
    let known = alias_or_blank(Some(alias(vec!["CVE-1"], vec!["x"], vec!["CVSS:3.1/AV:N"])));
    assert_eq!(known.aliases, vec!["CVE-1"]);
    assert_eq!(known.upstream, vec!["x"]);
    assert_eq!(known.severity.len(), 1);
}
