use trust_breaker::json::Json;
use trust_breaker::snyk_api_lib::{
    lists_dependencies, pom_json, retrieve_snyk_endpoints, snyk_url, CVE,
};

fn text(s: &str) -> Json {
    Json::Text(s.to_string())
}

fn object(members: Vec<(&str, Json)>) -> Json {
    Json::Object(members.into_iter().map(|(k, v)| (k.to_string(), v)).collect())
}

fn dependency(group: &str, artifact: &str, version: &str) -> Json {
    object(vec![
        ("groupId", text(group)),
        ("artifactId", text(artifact)),
        ("version", text(version)),
    ])
}

fn pom(items: Json) -> Json {
    object(vec![("dependencies", object(vec![("dependency", items)]))])
}

#[test]
fn each_dependency_is_asked_about() {
    let input = pom(Json::Array(vec![
        dependency("org.a", "b", "1.0"),
        dependency("org.c", "d", "2.0"),
    ]));
    assert!(lists_dependencies(&input));
    assert_eq!(retrieve_snyk_endpoints(input), vec!["/org.a/b@1.0", "/org.c/d@2.0"]);
    assert!(retrieve_snyk_endpoints(pom(Json::Array(vec![]))).is_empty());
}

#[test]
fn what_lists_no_dependencies_is_told() {
    assert!(!lists_dependencies(&Json::Null));
    assert!(!lists_dependencies(&pom(dependency("a", "b", "1"))));
    assert!(!lists_dependencies(&pom(Json::Array(vec![object(vec![
        ("groupId", text("a")),
        ("artifactId", text("b")),
        ("version", Json::Null),
    ])]))));
}

#[test]
fn the_address_of_an_endpoint_has_slashes_only() {
    assert_eq!(snyk_url("/org.a/b@1.0"), "https://api.snyk.io/v1/test/maven/org.a/b/1.0");
}

#[test]
fn the_dependencies_of_a_pom_become_json() {
    assert_eq!(
        pom_json("<dependencies><dependency><groupId>a</groupId></dependency></dependencies>"),
        Some("{\"dependencies\":{\"dependency\":{\"groupId\":\"a\"}}}".to_string())
    );
    assert_eq!(pom_json(""), Some("null".to_string()));
    assert_eq!(pom_json("<a><![CDATA[x]]></a>"), Some("{\"a\":{\"#cdata\":\"x\"}}".to_string()));
    assert_eq!(pom_json("<#cdata></#cdata>"), Some("{\"#cdata\":null}".to_string()));
    assert!(pom_json("<a><![CDATA[x]]><#cdata></#cdata></a>").is_some());
}

#[test]
fn character_data_is_kept_behind_an_element_of_its_name_that_holds_text() {
    let held = |text: &str| Some(format!("{{\"a\":{{\"#cdata\":\"{}\"}}}}", text));
    assert_eq!(pom_json("<a><#cdata>x</#cdata><![CDATA[y]]></a>"), held("xy"));
    assert_eq!(pom_json("<a><#cdata> x </#cdata> <![CDATA[y]]><![CDATA[z]]></a>"), held("xyz"));
    let later = "<a><#cdata>x</#cdata><![CDATA[y]]></a><#cdata/>";
    assert!(pom_json(later).is_some());
    for clash in [
        "<a><#cdata></#cdata><![CDATA[y]]></a>",
        "<a><#cdata> \u{a0}</#cdata><![CDATA[y]]></a>",
        "<a><#cdata/><![CDATA[y]]></a>",
        "<a><#cdata b=\"c\">x</#cdata><![CDATA[y]]></a>",
        "<a><#cdata>x<b/></#cdata><![CDATA[y]]></a>",
        "<a><#cdata>x</#cdata><#cdata>y</#cdata><![CDATA[z]]></a>",
        "<a><![CDATA[x]]><#cdata>y</#cdata><![CDATA[z]]></a>",
    ] {
        assert_eq!(pom_json(clash), None);
    }
}

#[test]
fn a_vulnerability_may_have_no_cve() {
    let none = CVE { CVE: None };
    assert!(none.CVE.is_none());
}
