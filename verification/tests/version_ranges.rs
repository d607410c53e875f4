use trust_breaker::json::Json;
use trust_breaker::versions::{
    rpm_order, version_in_affected, version_in_events, Asked, Comparisons,
};

fn text(s: &str) -> Json {
    Json::Text(s.to_string())
}

fn object(members: Vec<(&str, Json)>) -> Json {
    Json::Object(members.into_iter().map(|(k, v)| (k.to_string(), v)).collect())
}

fn event(kind: &str, version: &str) -> Json {
    object(vec![(kind, text(version))])
}

fn number(s: &str) -> i64 {
    s.parse::<i64>().unwrap_or(-1)
}

fn order(a: &str, b: &str) -> i32 {
    if number(a) < number(b) {
        -1
    } else if number(a) > number(b) {
        1
    } else {
        0
    }
}

fn settle<F: Fn(&Comparisons) -> Asked<bool>>(ask: F) -> (bool, usize) {
    let mut t = Comparisons::new();
    let mut asked = 0;
    loop {
        match ask(&t) {
            Asked::Known(answer) => return (answer, asked),
            Asked::Needs(a, b) => {
                assert!(t.get(&a, &b).is_none());
                asked += 1;
                t.record(&a, &b, Some(order(&a, &b)));
            }
        }
    }
}

fn in_events(version: &str, events: &Vec<Json>) -> bool {
    settle(|t| version_in_events(version, events, t)).0
}

#[test]
fn a_version_between_introduction_and_fix_is_affected() {
    let events = vec![event("introduced", "3"), event("fixed", "7")];
    assert!(!in_events("2", &events));
    assert!(in_events("3", &events));
    assert!(in_events("6", &events));
    assert!(!in_events("7", &events));
}

#[test]
fn the_last_affected_version_is_affected() {
    let events = vec![event("introduced", "3"), event("last_affected", "7")];
    assert!(in_events("7", &events));
    assert!(!in_events("8", &events));
}

#[test]
fn a_range_without_an_end_stays_open() {
    assert!(in_events("9", &vec![event("introduced", "3")]));
    assert!(!in_events("2", &vec![event("introduced", "3")]));
}

#[test]
fn an_empty_introduction_is_the_beginning() {
    assert!(in_events("5", &vec![event("introduced", ""), event("fixed", "7")]));
    assert!(in_events("5", &vec![event("fixed", "7")]));
}

#[test]
fn without_events_nothing_is_affected() {
    assert!(!in_events("5", &vec![]));
}

#[test]
fn an_event_of_another_sort_leaves_the_range_open_from_the_start() {
    assert!(in_events("5", &vec![event("limit", "3")]));
}

#[test]
fn a_range_can_open_again() {
    let events = vec![
        event("introduced", "1"),
        event("fixed", "3"),
        event("introduced", "5"),
        event("fixed", "7"),
    ];
    assert!(in_events("2", &events));
    assert!(!in_events("4", &events));
    assert!(in_events("6", &events));
    assert!(!in_events("8", &events));
}

#[test]
fn a_comparison_is_asked_for_once() {
    let events = vec![event("introduced", "3"), event("fixed", "7")];
    let (answer, asked) = settle(|t| version_in_events("5", &events, t));
    assert!(answer);
    assert_eq!(asked, 2);
    let (answer, asked) = settle(|t| version_in_events("1", &events, t));
    assert!(!answer);
    assert_eq!(asked, 1);
}

#[test]
fn failed_comparisons_count_as_the_careful_answer() {
    let mut t = Comparisons::new();
    let events = vec![event("introduced", "3"), event("last_affected", "7")];
    t.record("3", "5", None);
    assert!(matches!(version_in_events("5", &events, &t), Asked::Known(false)));
    t.record("3", "5", Some(-1));
    t.record("5", "7", None);
    assert!(matches!(version_in_events("5", &events, &t), Asked::Known(true)));
    let events = vec![event("introduced", "3"), event("fixed", "7")];
    assert!(matches!(version_in_events("5", &events, &t), Asked::Known(false)));
}

#[test]
fn failures_are_forgotten_and_successes_kept() {
    let mut t = Comparisons::new();
    t.record("1", "2", Some(-1));
    t.record("1", "2", None);
    t.record("3", "4", None);
    assert_eq!(t.get("1", "2"), Some(Some(-1)));
    assert_eq!(t.get("3", "4"), Some(None));
    t.forget_failures();
    assert_eq!(t.get("1", "2"), Some(Some(-1)));
    assert_eq!(t.get("3", "4"), None);
    assert!(matches!(rpm_order(&t, "1", "2"), Asked::Known(Some(-1))));
    assert!(matches!(rpm_order(&t, "3", "4"), Asked::Needs(a, b) if a == "3" && b == "4"));
}

#[test]
fn a_listed_version_is_affected_with_or_without_its_epoch() {
    let affected = object(vec![(
        "versions",
        Json::Array(vec![text("1.0-1"), Json::Null]),
    )]);
    assert!(settle(|t| version_in_affected("2:1.0-1", &affected, t)).0);
    assert!(settle(|t| version_in_affected("1.0-1", &affected, t)).0);
    assert!(!settle(|t| version_in_affected("1.0-2", &affected, t)).0);
}

#[test]
fn only_ranges_of_the_ecosystem_count() {
    let range = |kind: &str| {
        object(vec![(
            "ranges",
            Json::Array(vec![object(vec![
                ("type", text(kind)),
                ("events", Json::Array(vec![event("introduced", "0")])),
            ])]),
        )])
    };
    assert!(settle(|t| version_in_affected("5", &range("ECOSYSTEM"), t)).0);
    assert!(!settle(|t| version_in_affected("5", &range("GIT"), t)).0);
}
