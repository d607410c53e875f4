use trust_breaker::gaps::{missing_in_tpa, needed_advisories, reported_pairs, Gap};
use trust_breaker::json::Json;
use trust_breaker::report::{output_fields, output_row, summarize};
use trust_breaker::run::{Action, Categorization};
use trust_breaker::str_map::StrMap;

fn text(s: &str) -> Json {
    Json::Text(s.to_string())
}

fn list(items: Vec<Json>) -> Json {
    Json::Array(items)
}

fn object(members: Vec<(&str, Json)>) -> Json {
    Json::Object(members.into_iter().map(|(k, v)| (k.to_string(), v)).collect())
}

fn strings(v: Vec<&str>) -> Vec<String> {
    v.into_iter().map(|s| s.to_string()).collect()
}

fn map(members: Vec<(&str, Json)>) -> StrMap<Json> {
    let mut m: StrMap<Json> = StrMap::new();
    for (k, v) in members {
        m.insert(k.to_string(), v);
    }
    m
}

fn fields() -> Vec<String> {
    strings(vec!["purl", "cve_id", "osv_cvss", "tpa_cvss", "missing_in"])
}

const A: &str = "pkg:rpm/redhat/a@1-1.el9";
const B: &str = "pkg:rpm/redhat/b@1-1.el9";
const C: &str = "pkg:rpm/redhat/c@1-1.el9";

fn records() -> Vec<Vec<String>> {
    vec![
        strings(vec![A, "CVE-1", "7", "", "TPA"]),
        strings(vec![A, "CVE-9", "", "4", "OSV"]),
        strings(vec![B, "CVE-1", "7", "", "TPA"]),
        strings(vec![C, "CVE-2", "7", "", "TPA"]),
        strings(vec!["pkg:npm/x@1", "CVE-3", "7", "", "TPA"]),
        strings(vec![A, "CVE-1", "7", "", "TPA"]),
    ]
}

fn advisory(id: &str, cve: &str, package: &str) -> Json {
    object(vec![
        ("id", text(id)),
        ("aliases", list(vec![text(cve)])),
        (
            "affected",
            list(vec![object(vec![
                (
                    "package",
                    object(vec![
                        ("name", text(package)),
                        ("ecosystem", text("Red Hat:enterprise_linux:9::baseos")),
                    ]),
                ),
                (
                    "ranges",
                    list(vec![object(vec![
                        ("type", text("ECOSYSTEM")),
                        (
                            "events",
                            list(vec![
                                object(vec![("introduced", text("0"))]),
                                object(vec![("fixed", text("2-1.el9"))]),
                            ]),
                        ),
                    ])]),
                ),
            ])]),
        ),
    ])
}

fn advisories() -> StrMap<Vec<String>> {
    let mut m: StrMap<Vec<String>> = StrMap::new();
    m.insert(A.to_string(), strings(vec!["RHSA-2022:1"]));
    m.insert(B.to_string(), strings(vec!["RHSA-2022:2", "RHSA-2022:1"]));
    m.insert(C.to_string(), strings(vec!["RHSA-2022:3"]));
    m.insert("other".to_string(), strings(vec!["RHSA-2022:4"]));
    m
}

fn advisory_data() -> StrMap<Json> {
    map(vec![
        ("RHSA-2022:1", advisory("RHSA-2022:1", "CVE-1", "a")),
        ("RHSA-2022:2", advisory("RHSA-2022:2", "CVE-1", "b")),
        ("RHSA-2022:3", advisory("RHSA-2022:3", "CVE-2", "c")),
    ])
}

fn product(package: &str, kind: &str, cve: &str) -> Json {
    object(vec![(
        "vulnerabilities",
        list(vec![object(vec![
            ("cve", text(cve)),
            (
                "product_status",
                object(vec![(kind, list(vec![text(&format!("B:{}-0:3-1.el9.x86_64", package))]))]),
            ),
        ])]),
    )])
}

fn order(a: &str, b: &str) -> i32 {
    let number = |s: &str| s.trim_start_matches("0:").chars().next().unwrap();
    if number(a) < number(b) {
        -1
    } else if number(a) > number(b) {
        1
    } else {
        0
    }
}

fn run_all(run: &mut Categorization, csaf: Vec<(&str, Json)>, cves: Vec<(&str, Json)>) -> Vec<String> {
    let mut seen: Vec<String> = Vec::new();
    let mut csaf = Some(csaf);
    let mut cves = Some(cves);
    loop {
        match run.step() {
            Action::Compare(a, b) => {
                seen.push(format!("{} ? {}", a, b));
                run.compared(&a, &b, Some(order(&a, &b)));
            }
            Action::FetchCsaf(ids) => {
                seen.push(format!("csaf {}", ids.join(" ")));
                run.csaf_fetched(map(csaf.take().unwrap()));
            }
            Action::FetchCves(ids) => {
                seen.push(format!("cves {}", ids.join(" ")));
                run.cves_fetched(map(cves.take().unwrap()));
            }
            Action::Finish => return seen,
        }
    }
}

fn start() -> Categorization {
    Categorization::new(missing_in_tpa(&fields(), &records(), 0), advisories(), advisory_data())
}

#[test]
fn gaps_are_the_rows_that_tpa_misses_up_to_the_limit() {
    let gaps = missing_in_tpa(&fields(), &records(), 0);
    assert_eq!(gaps.len(), 5);
    assert_eq!(gaps[1].purl, Some(B.to_string()));
    assert_eq!(gaps[1].cve_id, Some("CVE-1".to_string()));
    assert_eq!(missing_in_tpa(&fields(), &records(), 2).len(), 2);
    assert_eq!(missing_in_tpa(&fields(), &records(), 9).len(), 5);
}

#[test]
fn a_table_without_the_columns_has_gaps_without_them() {
    let fields = strings(vec!["missing_in"]);
    let gaps = missing_in_tpa(&fields, &vec![strings(vec!["TPA"]), strings(vec![])], 0);
    assert_eq!(gaps.len(), 1);
    assert!(gaps[0].purl.is_none());
    assert_eq!(reported_pairs(&gaps).len(), 0);
    assert_eq!(missing_in_tpa(&strings(vec!["purl"]), &vec![strings(vec!["TPA"])], 0).len(), 0);
}

#[test]
fn the_advisories_of_the_gaps_are_needed_once() {
    let gaps = missing_in_tpa(&fields(), &records(), 0);
    let mut needed = needed_advisories(&gaps, &advisories());
    needed.sort();
    assert_eq!(needed, vec!["RHSA-2022:1", "RHSA-2022:2", "RHSA-2022:3"]);
}

#[test]
fn reported_pairs_are_those_of_the_gaps() {
    let pairs = reported_pairs(&missing_in_tpa(&fields(), &records(), 0));
    assert_eq!(pairs.len(), 4);
    assert!(pairs.contains_key(A, "CVE-1"));
    assert!(!pairs.contains_key(A, "CVE-9"));
}

#[test]
fn all_the_evidence_is_gathered_and_weighed() {
    let mut run = start();
    let seen = run_all(
        &mut run,
        vec![
            ("RHSA-2022:1", product("a", "known_affected", "CVE-1")),
            ("RHSA-2022:2", product("b", "known_not_affected", "CVE-1")),
        ],
        vec![("CVE-2", object(vec![("withdrawn", text("x"))]))],
    );
    assert_eq!(
        seen,
        vec![
            "0 ? 1-1.el9",
            "1-1.el9 ? 2-1.el9",
            "csaf RHSA-2022:1 RHSA-2022:2 RHSA-2022:3",
            "cves CVE-1 CVE-2",
        ]
    );
    let got = |purl: &str, cve: &str| {
        let c = run.categories.get(purl, cve).unwrap();
        (c.finding.clone(), c.verdict.clone(), c.matched_advisory.clone())
    };
    let three = |a: &str, b: &str, c: &str| (a.to_string(), b.to_string(), c.to_string());
    assert_eq!(got(A, "CVE-1"), three("TPA_MISS", "TPA_GAP", "RHSA-2022:1"));
    assert_eq!(got(B, "CVE-1"), three("CROSS_PACKAGE", "OSV_NOISE", "RHSA-2022:2"));
    assert_eq!(got(C, "CVE-2"), three("CVE_WITHDRAWN", "OSV_NOISE", "RHSA-2022:3"));
    assert_eq!(got("pkg:npm/x@1", "CVE-3"), three("UNKNOWN", "", ""));
    assert_eq!(run.categories.len(), 4);
}

#[test]
fn a_fix_in_a_csaf_document_asks_for_a_comparison() {
    let gaps = vec![Gap { purl: Some(A.to_string()), cve_id: Some("CVE-1".to_string()) }];
    let mut run = Categorization::new(gaps, advisories(), advisory_data());
    let seen = run_all(
        &mut run,
        vec![("RHSA-2022:1", product("a", "fixed", "CVE-1"))],
        vec![],
    );
    assert_eq!(seen.len(), 5);
    assert_eq!(seen[2], "csaf RHSA-2022:1");
    assert_eq!(seen[3], "1-1.el9 ? 0:3-1");
    assert_eq!(seen[4], "cves CVE-1");
    assert_eq!(run.categories.get(A, "CVE-1").unwrap().finding, "TPA_MISS");
}

#[test]
fn without_a_miss_nothing_is_fetched() {
    let gaps = vec![Gap { purl: Some("pkg:npm/x@1".to_string()), cve_id: None }];
    let mut run = Categorization::new(gaps, advisories(), advisory_data());
    assert!(run_all(&mut run, vec![], vec![]).is_empty());
    assert_eq!(run.categories.get("pkg:npm/x@1", "").unwrap().finding, "UNKNOWN");
    assert!(run.csaf_data.is_none());
}

#[test]
fn a_comparison_that_fails_is_asked_for_again_by_the_next_row() {
    let mut run = start();
    let mut asked: Vec<(String, String)> = Vec::new();
    for _ in 0..3 {
        if let Action::Compare(a, b) = run.step() {
            run.compared(&a, &b, None);
            asked.push((a, b));
        }
    }
    assert_eq!(asked.len(), 3);
    assert_eq!(asked[0], asked[1]);
    assert_eq!(run.categories.get(A, "CVE-1").unwrap().finding, "VERSION_NOT_AFFECTED");
}

#[test]
fn a_failure_counts_until_the_next_gap_and_displaces_no_success() {
    let mut run = start();
    run.compared("x", "y", Some(-1));
    run.compared("x", "y", None);
    run.compared("y", "x", None);
    assert_eq!(run.comparisons.get("x", "y"), Some(Some(-1)));
    assert_eq!(run.comparisons.get("y", "x"), Some(None));
    let first = run.step();
    assert!(matches!(&first, Action::Compare(_, _)));
    assert_eq!(run.comparisons.get("y", "x"), Some(None));
    run_all(&mut run, vec![], vec![]);
    assert_eq!(run.comparisons.get("x", "y"), Some(Some(-1)));
    assert_eq!(run.comparisons.get("y", "x"), None);
}

#[test]
fn the_table_gets_the_findings() {
    let mut run = start();
    run_all(&mut run, vec![("RHSA-2022:2", product("b", "known_not_affected", "CVE-1"))], vec![]);
    let reported = reported_pairs(&run.gaps);
    let fields = fields();
    let header = output_fields(&fields);
    assert_eq!(header.len(), 8);
    assert_eq!(header[5..], strings(vec!["finding", "verdict", "matched_advisory"])[..]);
    let rows: Vec<Vec<String>> = records()
        .iter()
        .map(|r| output_row(&fields, r, &reported, &run.categories))
        .collect();
    assert_eq!(rows[0], strings(vec![A, "CVE-1", "7", "", "TPA", "TPA_MISS", "TPA_GAP", "RHSA-2022:1"]));
    assert_eq!(rows[1], strings(vec![A, "CVE-9", "", "4", "OSV", "", "", ""]));
    assert_eq!(
        rows[2],
        strings(vec![B, "CVE-1", "7", "", "TPA", "CROSS_PACKAGE", "OSV_NOISE", "RHSA-2022:2"])
    );
    assert_eq!(rows[4], strings(vec!["pkg:npm/x@1", "CVE-3", "7", "", "TPA", "UNKNOWN", "", ""]));
}

#[test]
fn a_row_beyond_the_limit_gets_blanks_and_one_of_neither_side_keeps_its_own() {
    let gaps = missing_in_tpa(&fields(), &records(), 1);
    let mut run = Categorization::new(gaps, advisories(), advisory_data());
    run_all(&mut run, vec![], vec![]);
    let reported = reported_pairs(&run.gaps);
    let names = strings(vec!["purl", "cve_id", "missing_in", "finding"]);
    assert_eq!(
        output_fields(&names),
        strings(vec!["purl", "cve_id", "missing_in", "finding", "verdict", "matched_advisory"])
    );
    let blank = output_row(&names, &strings(vec![B, "CVE-1", "TPA", "old"]), &reported, &run.categories);
    assert_eq!(blank, strings(vec![B, "CVE-1", "TPA", "", "", ""]));
    let kept = output_row(&names, &strings(vec![B, "CVE-1", "", "old"]), &reported, &run.categories);
    assert_eq!(kept, strings(vec![B, "CVE-1", "", "old", "", ""]));
    assert_eq!(output_fields(&output_fields(&names)), output_fields(&names));
}

/// The columns and the rows that are written of a comparison, up to a limit.
fn categorized(names: &Vec<String>, rows: &Vec<Vec<String>>, limit: usize) -> (Vec<String>, Vec<Vec<String>>) {
    let gaps = missing_in_tpa(names, rows, limit);
    let mut run = Categorization::new(gaps, advisories(), advisory_data());
    run_all(
        &mut run,
        vec![("RHSA-2022:2", product("b", "known_not_affected", "CVE-1"))],
        vec![("CVE-2", object(vec![("withdrawn", Json::Null)]))],
    );
    let reported = reported_pairs(&run.gaps);
    let written =
        rows.iter().map(|r| output_row(names, r, &reported, &run.categories)).collect();
    (output_fields(names), written)
}

#[test]
fn a_second_categorization_changes_nothing() {
    for limit in [0, 1, 2, 9] {
        let (names, rows) = categorized(&fields(), &records(), limit);
        assert_eq!(names.len(), 8);
        assert_eq!(rows.len(), 6);
        assert_eq!(rows[0][5..], strings(vec!["TPA_MISS", "TPA_GAP", "RHSA-2022:1"])[..]);
        let (again, same) = categorized(&names, &rows, limit);
        assert_eq!(again, names);
        assert_eq!(same, rows);
    }
}

#[test]
fn only_findings_verdicts_and_blanks_are_written() {
    let findings = [
        "", "TPA_MISS", "VERSION_NOT_AFFECTED", "ECOSYSTEM_MISMATCH", "CROSS_PACKAGE",
        "CVE_WITHDRAWN", "UNKNOWN",
    ];
    let (_, rows) = categorized(&fields(), &records(), 3);
    let written: Vec<&str> = rows.iter().map(|r| r[5].as_str()).collect();
    assert_eq!(written, vec!["TPA_MISS", "", "CROSS_PACKAGE", "CVE_WITHDRAWN", "", "TPA_MISS"]);
    for row in &rows {
        assert!(findings.contains(&row[5].as_str()));
        assert!(["", "TPA_GAP", "OSV_NOISE"].contains(&row[6].as_str()));
        assert!(row[7].is_empty() || row[7].starts_with("RHSA-"));
    }
}

#[test]
fn the_findings_are_counted_pair_by_pair() {
    let mut run = start();
    run_all(
        &mut run,
        vec![("RHSA-2022:2", product("b", "known_not_affected", "CVE-1"))],
        vec![("CVE-2", object(vec![("withdrawn", Json::Null)]))],
    );
    let summary = summarize(&run.categories, &reported_pairs(&run.gaps));
    assert_eq!(summary.tpa_miss, 1);
    assert_eq!(summary.osv_noise, 2);
    assert_eq!(summary.classifiable, 3);
    assert_eq!(summary.findings.get("TPA_MISS"), Some(&1));
    assert_eq!(summary.findings.get("CROSS_PACKAGE"), Some(&1));
    assert_eq!(summary.findings.get("CVE_WITHDRAWN"), Some(&1));
    assert_eq!(summary.findings.get("UNKNOWN"), Some(&1));
    assert_eq!(summary.findings.len(), 4);
    assert_eq!(summary.verdicts.get("TPA_GAP"), Some(&1));
    assert_eq!(summary.verdicts.get("OSV_NOISE"), Some(&2));
    assert_eq!(summary.verdicts.len(), 2);
    let none = summarize(&run.categories, &reported_pairs(&vec![]));
    assert_eq!(none.classifiable, 0);
    assert_eq!(none.findings.len(), 0);
}

#[test]
fn the_outcome_does_not_hang_on_when_comparisons_are_made() {
    let documents = || vec![("RHSA-2022:1", product("a", "fixed", "CVE-1"))];
    let mut asked = start();
    run_all(&mut asked, documents(), vec![]);
    let mut told = start();
    for (a, b) in [("0", "1-1.el9"), ("1-1.el9", "2-1.el9"), ("1-1.el9", "0:3-1"), ("x", "y")] {
        told.compared(a, b, Some(order(a, b)));
    }
    let seen = run_all(&mut told, documents(), vec![]);
    assert!(seen.iter().all(|s| !s.contains('?')));
    assert_eq!(asked.categories.len(), told.categories.len());
    for i in 0..asked.categories.len() {
        let (purl, cve) = asked.categories.key_at(i);
        let first = asked.categories.get(purl, cve).unwrap();
        let second = told.categories.get(purl, cve).unwrap();
        assert_eq!(first.finding, second.finding);
        assert_eq!(first.verdict, second.verdict);
        assert_eq!(first.matched_advisory, second.matched_advisory);
    }
}

#[test]
fn steps_that_wait_ask_for_the_same_again() {
    let mut run = start();
    while let Action::Compare(a, b) = run.step() {
        run.compared(&a, &b, Some(order(&a, &b)));
    }
    assert!(matches!(run.step(), Action::FetchCsaf(ids) if ids.len() == 3));
    assert!(matches!(run.step(), Action::FetchCsaf(ids) if ids.len() == 3));
    run.csaf_fetched(map(vec![]));
    assert!(matches!(run.step(), Action::FetchCves(ids) if ids.len() == 2));
    run.cves_fetched(map(vec![("CVE-1", object(vec![("details", text("Rejected"))]))]));
    assert!(matches!(run.step(), Action::Finish));
    assert_eq!(run.categories.get(A, "CVE-1").unwrap().finding, "CVE_WITHDRAWN");
    assert_eq!(run.categories.get(C, "CVE-2").unwrap().finding, "TPA_MISS");
}
