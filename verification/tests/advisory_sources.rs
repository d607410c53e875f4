use trust_breaker::advisories::{
    collect_purl_advisories, count_cached, csaf_advisory_url, csaf_concurrency, csaf_url_of,
    ids_to_fetch, osv_vuln_url, Fetching,
};
use trust_breaker::str_map::StrMap;

fn strings(v: Vec<&str>) -> Vec<String> {
    v.into_iter().map(|s| s.to_string()).collect()
}

#[test]
fn advisories_are_collected_by_package() {
    let headers = strings(vec!["PURL", "OSV_ID", "MODIFIED"]);
    let records = vec![
        strings(vec!["p", "RHSA-1", "x"]),
        strings(vec![" q ", " RHSA-2\t", ""]),
        strings(vec!["p", "RHSA-3", ""]),
        strings(vec!["r", "", ""]),
        strings(vec!["", "RHSA-4", ""]),
        strings(vec!["p", "RHSA-1", ""]),
        strings(vec!["p"]),
    ];
    let found = collect_purl_advisories(&headers, &records);
    assert_eq!(found.len(), 2);
    assert_eq!(found.get("p").unwrap(), &strings(vec!["RHSA-1", "RHSA-3", "RHSA-1"]));
    assert_eq!(found.get("q").unwrap(), &strings(vec!["RHSA-2"]));
}

#[test]
fn without_the_columns_there_are_no_advisories() {
    let found = collect_purl_advisories(&strings(vec!["PURL"]), &vec![strings(vec!["p"])]);
    assert_eq!(found.len(), 0);
    let found = collect_purl_advisories(&strings(vec!["OSV_ID"]), &vec![strings(vec!["p"])]);
    assert_eq!(found.len(), 0);
}

#[test]
fn the_first_column_of_a_name_counts() {
    let headers = strings(vec!["OSV_ID", "PURL", "OSV_ID"]);
    let found = collect_purl_advisories(&headers, &vec![strings(vec!["a", "p", "b"])]);
    assert_eq!(found.get("p").unwrap(), &strings(vec!["a"]));
}

#[test]
fn addresses_are_made_of_ids() {
    assert_eq!(osv_vuln_url("RHSA-2024:1"), "https://api.osv.dev/v1/vulns/RHSA-2024:1");
    assert_eq!(
        csaf_advisory_url("RHSA-2024:1234"),
        "https://security.access.redhat.com/data/csaf/v2/advisories/2024/rhsa-2024_1234.json"
    );
    assert_eq!(
        csaf_advisory_url("ABC"),
        "https://security.access.redhat.com/data/csaf/v2/advisories/2024/abc.json"
    );
    assert_eq!(
        csaf_url_of("x-1999-5:6"),
        "https://security.access.redhat.com/data/csaf/v2/advisories/1999/x-1999-5_6.json"
    );
    assert_eq!(
        csaf_advisory_url("\u{130}-1:2"),
        "https://security.access.redhat.com/data/csaf/v2/advisories/1/i\u{307}-1_2.json"
    );
}

#[test]
fn csaf_documents_are_fetched_a_few_at_a_time() {
    assert_eq!(csaf_concurrency(20), 5);
    assert_eq!(csaf_concurrency(3), 3);
    assert_eq!(csaf_concurrency(0), 0);
}

#[test]
fn what_is_held_is_not_fetched_again() {
    let mut cache: StrMap<u8> = StrMap::new();
    cache.insert("b".to_string(), 1);
    let needed = strings(vec!["a", "b", "c"]);
    assert_eq!(ids_to_fetch(&needed, &cache), strings(vec!["a", "c"]));
    assert_eq!(count_cached(&needed, &cache), 1);
    let mut fetching = Fetching::new(cache);
    assert!(!fetching.take_in(Some(("a".to_string(), 2)), 2));
    assert!(fetching.take_in(None, 2));
    assert!(!fetching.take_in(Some(("b".to_string(), 3)), 2));
    assert_eq!(fetching.done, 3);
    assert_eq!(ids_to_fetch(&needed, &fetching.cache), strings(vec!["c"]));
    assert_eq!(count_cached(&needed, &fetching.cache), 2);
    assert_eq!(fetching.cache.get("b"), Some(&3));
}
