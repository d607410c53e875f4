use trust_breaker::dependencies::{flatten_dependencies, get_dep_tree};
use trust_breaker::sbom_cdx::{CdxComponent, CdxDependency, CycloneDXBOM};
use trust_breaker::str_map::StrMap;

fn strings(v: Vec<&str>) -> Vec<String> {
    v.into_iter().map(|s| s.to_string()).collect()
}

fn tree(edges: Vec<(&str, Vec<&str>)>) -> StrMap<Option<Vec<String>>> {
    let mut m: StrMap<Option<Vec<String>>> = StrMap::new();
    for (from, to) in edges {
        m.insert(from.to_string(), Some(strings(to)));
    }
    m.insert("leaf".to_string(), None);
    m
}

fn sorted(mut v: Vec<String>) -> Vec<String> {
    v.sort();
    v
}

#[test]
fn dependencies_are_found_through_others() {
    let found = flatten_dependencies(
        "a",
        tree(vec![("a", vec!["b", "c"]), ("b", vec!["d"]), ("d", vec!["leaf"]), ("x", vec!["y"])]),
        None,
    );
    assert_eq!(sorted(found), strings(vec!["b", "c", "d", "leaf"]));
}

#[test]
fn a_cycle_ends_and_brings_the_package_itself() {
    let found = flatten_dependencies(
        "a",
        tree(vec![("a", vec!["b", "b"]), ("b", vec!["c"]), ("c", vec!["a", "b"])]),
        None,
    );
    assert_eq!(sorted(found), strings(vec!["a", "b", "c"]));
}

#[test]
fn the_search_does_not_go_through_what_was_given() {
    let edges = || tree(vec![("a", vec!["b", "c"]), ("b", vec!["d"]), ("c", vec!["e"])]);
    let found = flatten_dependencies("a", edges(), Some(strings(vec!["b", "z"])));
    assert_eq!(sorted(found), strings(vec!["b", "c", "e", "z"]));
    let found = flatten_dependencies("nowhere", edges(), Some(strings(vec!["z", "z"])));
    assert_eq!(found, strings(vec!["z"]));
    assert!(flatten_dependencies("leaf", edges(), None).is_empty());
}

#[test]
fn dependencies_of_dependencies_are_among_the_dependencies() {
    let edges = || tree(vec![("a", vec!["b"]), ("b", vec!["c"]), ("c", vec!["d"])]);
    let all = flatten_dependencies("a", edges(), None);
    for through in flatten_dependencies("b", edges(), None) {
        assert!(all.contains(&through));
    }
}

fn component(purl: Option<&str>) -> CdxComponent {
    CdxComponent { purl: purl.map(|p| p.to_string()) }
}

fn dependency(from: &str, to: Option<Vec<&str>>) -> CdxDependency {
    CdxDependency { dependency_ref: from.to_string(), dependsOn: to.map(strings) }
}

#[test]
fn the_tree_of_a_bill_takes_the_last_statement() {
    let bom = CycloneDXBOM {
        components: vec![component(Some("a")), component(None), component(Some("b")), component(Some("c"))],
        dependencies: Some(vec![
            dependency("a", Some(vec!["x"])),
            dependency("a", Some(vec!["b"])),
            dependency("a", None),
            dependency("c", None),
            dependency("other", Some(vec!["a"])),
        ]),
    };
    let tree = get_dep_tree(&bom);
    assert_eq!(tree.len(), 3);
    assert_eq!(tree.get("a").unwrap(), &Some(strings(vec!["b"])));
    assert_eq!(tree.get("b").unwrap(), &None);
    assert_eq!(tree.get("c").unwrap(), &None);
    assert!(tree.get("other").is_none());
}

#[test]
fn a_bill_without_statements_has_a_tree_without_edges() {
    let bom = CycloneDXBOM { components: vec![component(Some("a"))], dependencies: None };
    assert_eq!(get_dep_tree(&bom).get("a").unwrap(), &None);
}
