use trust_breaker::compare::{
    compare_osv_vs_tpa, compare_sources, compare_tpa_vs_exhort, normalize_osv_data,
    normalize_tpa_data, normalize_exhort_data,
};
use trust_breaker::exhort::ExhortRecord;
use trust_breaker::gaps::missing_in_tpa;
use trust_breaker::osv::OSVHeader;
use trust_breaker::tpa_analyze::TPAHeaders;

fn osv(purl: &str, cve: &str, cvss: &str) -> OSVHeader {
    OSVHeader { PURL: purl.to_string(), CVE_ID: cve.to_string(), CVSS: cvss.to_string() }
}

fn exhort(purl: &str, cve: &str, cvss: &str) -> ExhortRecord {
    ExhortRecord { PURL: purl.to_string(), CVE_ID: cve.to_string(), CVSS: cvss.to_string() }
}

fn tpa(purl: &str, cve: &str, cvss: &str, source: &str) -> TPAHeaders {
    TPAHeaders {
        PURL: purl.to_string(),
        CVE_ID: cve.to_string(),
        OSV_ID: "id".to_string(),
        CVSS: cvss.to_string(),
        CVSSType: "3.1".to_string(),
        Source: source.to_string(),
    }
}

#[test]
fn the_last_record_about_a_pair_counts() {
    let scores = normalize_osv_data(&vec![osv("p", "c", "1"), osv("p", "d", "2"), osv("p", "c", "3")]);
    assert_eq!(scores.len(), 2);
    assert_eq!(scores.get("p", "c").unwrap(), "3");
    assert_eq!(scores.get("p", "d").unwrap(), "2");
    assert!(scores.get("q", "c").is_none());
    let scores = normalize_exhort_data(&vec![exhort("p", "c", "1"), exhort("p", "c", "9")]);
    assert_eq!(scores.get("p", "c").unwrap(), "9");
}

#[test]
fn records_of_tpa_are_picked_by_source_whatever_the_case() {
    let data = vec![tpa("p", "c", "1", "CSAF"), tpa("p", "d", "2", "osv"), tpa("p", "e", "3", "\u{130}x")];
    let all = normalize_tpa_data(&data, None);
    assert_eq!(all.len(), 3);
    let csaf = normalize_tpa_data(&data, Some("csaf"));
    assert_eq!(csaf.len(), 1);
    assert_eq!(csaf.get("p", "c").unwrap(), "1");
    let turkish = normalize_tpa_data(&data, Some("i\u{307}X"));
    assert_eq!(turkish.get("p", "e").unwrap(), "3");
}

#[test]
fn what_only_one_source_has_stands_out() {
    let found = compare_osv_vs_tpa(
        &vec![osv("p", "c", "7.5"), osv("p", "both", "1")],
        &vec![tpa("p", "both", "2", "x"), tpa("q", "d", "5", "x")],
    );
    assert_eq!(found.len(), 2);
    let c = found.iter().find(|r| r.cve_id == "c").unwrap();
    assert_eq!((c.purl.as_str(), c.osv_cvss.as_str(), c.tpa_cvss.as_str()), ("p", "7.5", ""));
    assert_eq!(c.missing_in, "TPA");
    let d = found.iter().find(|r| r.cve_id == "d").unwrap();
    assert_eq!((d.purl.as_str(), d.osv_cvss.as_str(), d.tpa_cvss.as_str()), ("q", "", "5"));
    assert_eq!(d.missing_in, "OSV");
}

#[test]
fn tpa_and_exhort_are_compared_the_same_way() {
    let found = compare_tpa_vs_exhort(
        &vec![tpa("p", "c", "7.5", "x")],
        &vec![exhort("p", "d", "4"), exhort("p", "d", "6")],
    );
    assert_eq!(found.len(), 2);
    let c = found.iter().find(|r| r.cve_id == "c").unwrap();
    assert_eq!((c.tpa_cvss.as_str(), c.exhort_cvss.as_str(), c.missing_in.as_str()), ("7.5", "", "Exhort"));
    let d = found.iter().find(|r| r.cve_id == "d").unwrap();
    assert_eq!((d.tpa_cvss.as_str(), d.exhort_cvss.as_str(), d.missing_in.as_str()), ("", "6", "TPA"));
}

#[test]
fn sources_that_agree_show_no_difference() {
    let (first, second) = compare_sources(
        vec![osv("p", "c", "1"), osv("p", "c", "2")],
        vec![tpa("p", "c", "3", "x")],
        vec![exhort("p", "c", "")],
    );
    assert!(first.is_empty());
    assert!(second.is_empty());
}

#[test]
fn a_blank_score_is_still_a_record() {
    let found = compare_osv_vs_tpa(&vec![osv("p", "c", "")], &vec![]);
    assert_eq!(found.len(), 1);
    assert_eq!(found[0].missing_in, "TPA");
    assert_eq!(found[0].osv_cvss, "");
}

#[test]
fn the_other_way_round_the_same_pairs_stand_out() {
    let forth = compare_osv_vs_tpa(&vec![osv("p", "c", "1"), osv("q", "d", "2")], &vec![tpa("q", "e", "3", "x")]);
    let back = compare_tpa_vs_exhort(
        &vec![tpa("q", "e", "3", "x")],
        &vec![exhort("p", "c", "1"), exhort("q", "d", "2")],
    );
    let mut first: Vec<(String, String, String, String)> = forth
        .into_iter()
        .map(|r| (r.purl, r.cve_id, r.osv_cvss, r.tpa_cvss))
        .collect();
    let mut second: Vec<(String, String, String, String)> = back
        .into_iter()
        .map(|r| (r.purl, r.cve_id, r.exhort_cvss, r.tpa_cvss))
        .collect();
    first.sort();
    second.sort();
    assert_eq!(first, second);
    assert_eq!(first.len(), 3);
}

#[test]
fn what_is_missing_in_tpa_is_taken_up_as_a_gap() {
    let found = compare_osv_vs_tpa(&vec![osv("p", "c", "1")], &vec![tpa("q", "d", "2", "x")]);
    let fields: Vec<String> = ["purl", "cve_id", "osv_cvss", "tpa_cvss", "missing_in"]
        .iter()
        .map(|s| s.to_string())
        .collect();
    let rows: Vec<Vec<String>> = found
        .into_iter()
        .map(|r| vec![r.purl, r.cve_id, r.osv_cvss, r.tpa_cvss, r.missing_in])
        .collect();
    let gaps = missing_in_tpa(&fields, &rows, 0);
    assert_eq!(gaps.len(), 1);
    assert_eq!(gaps[0].purl, Some("p".to_string()));
    assert_eq!(gaps[0].cve_id, Some("c".to_string()));
}
