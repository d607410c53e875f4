use trust_breaker::rpm::{
    ecosystems_match, osv_ecosystem_rhel_major, parse_rpm_purl, split_rpm_purl, vercmp_outcome,
};

#[test]
fn a_package_url_with_an_epoch_is_taken_apart() {
    let p = parse_rpm_purl("pkg:rpm/redhat/bind-libs@9.16.23-1.el9_2?arch=x86_64&epoch=32").unwrap();
    assert_eq!(p.name, "bind-libs");
    assert_eq!(p.rpm_version, "32:9.16.23-1.el9_2");
    assert_eq!(p.rhel_major, Some(9));
}

#[test]
fn an_epoch_of_zero_or_none_leaves_the_version_bare() {
    let p = parse_rpm_purl("pkg:rpm/redhat/zlib@1.2.11-40.el9?epoch=0").unwrap();
    assert_eq!(p.rpm_version, "1.2.11-40.el9");
    let p = parse_rpm_purl("pkg:rpm/redhat/zlib@1.2.11-40.el8.1?arch=src").unwrap();
    assert_eq!(p.rpm_version, "1.2.11-40.el8.1");
    assert_eq!(p.rhel_major, Some(8));
    let p = parse_rpm_purl("pkg:rpm/redhat/zlib@1.2.11").unwrap();
    assert_eq!(p.rpm_version, "1.2.11");
    assert_eq!(p.rhel_major, None);
}

#[test]
fn the_first_epoch_that_is_a_number_counts() {
    assert_eq!(
        split_rpm_purl("pkg:rpm/redhat/a@1?epoch=x&epoch=2&epoch=3"),
        Some(("a".to_string(), "1".to_string(), 2))
    );
    assert_eq!(
        split_rpm_purl("pkg:rpm/redhat/a@1?epoch"),
        Some(("a".to_string(), "1".to_string(), 0))
    );
}

#[test]
fn what_is_no_rpm_package_url_is_refused() {
    assert!(parse_rpm_purl("pkg:npm/left-pad@1.0.0").is_none());
    assert!(parse_rpm_purl("pkg:rpm/redhat/bash").is_none());
    assert!(parse_rpm_purl("pkg:rpm/bash@5.1").is_none());
    assert!(parse_rpm_purl("").is_none());
}

#[test]
fn the_name_is_all_behind_the_namespace() {
    let p = parse_rpm_purl("pkg:rpm/redhat/a/b@1").unwrap();
    assert_eq!(p.name, "a/b");
}

#[test]
fn the_release_tag_needs_an_end() {
    assert_eq!(parse_rpm_purl("pkg:rpm/r/a@1-1.el9x").unwrap().rhel_major, None);
    assert_eq!(parse_rpm_purl("pkg:rpm/r/a@1-1.el9x.el7").unwrap().rhel_major, Some(7));
    assert_eq!(parse_rpm_purl("pkg:rpm/r/a@1-1.el99999999999").unwrap().rhel_major, None);
}

#[test]
fn the_release_tag_takes_digits_beyond_ascii_but_no_number_comes_of_them() {
    assert_eq!(parse_rpm_purl("pkg:rpm/r/a@1-1.el\u{0669}").unwrap().rhel_major, None);
}

#[test]
fn the_major_release_of_an_ecosystem_is_read() {
    assert_eq!(osv_ecosystem_rhel_major("Red Hat:enterprise_linux:9::baseos"), Some(9));
    assert_eq!(osv_ecosystem_rhel_major("Red Hat:enterprise_linux:9"), None);
    assert_eq!(osv_ecosystem_rhel_major("Red Hat:rhel_eus:9.2::baseos"), None);
    assert_eq!(osv_ecosystem_rhel_major("x:enterprise_linux:a:enterprise_linux:10:"), Some(10));
}

#[test]
fn ecosystems_match_on_a_known_equal_major_release() {
    let p = parse_rpm_purl("pkg:rpm/redhat/zlib@1.2.11-40.el9").unwrap();
    assert!(ecosystems_match(&p, "Red Hat:enterprise_linux:9::baseos"));
    assert!(!ecosystems_match(&p, "Red Hat:enterprise_linux:8::baseos"));
    assert!(!ecosystems_match(&p, "Debian:12"));
    let unknown = parse_rpm_purl("pkg:rpm/redhat/zlib@1.2.11").unwrap();
    assert!(!ecosystems_match(&unknown, "Debian:12"));
}

#[test]
fn the_output_of_a_version_comparison_is_read() {
    assert_eq!(vercmp_outcome("1.0 < 1.1\n", false), Some(-1));
    assert_eq!(vercmp_outcome("1.1 > 1.0\n", false), Some(1));
    assert_eq!(vercmp_outcome("1.0 == 1.0\n", false), Some(0));
    assert_eq!(vercmp_outcome("", true), Some(0));
    assert_eq!(vercmp_outcome("not found", false), None);
    assert_eq!(vercmp_outcome("< and >", true), Some(-1));
}
