//! RPM package URLs and the order of RPM versions.
//!
//! Versions are ordered by an outside program. What it has said so far is a
//! table; a question that the table cannot answer yet comes back as the pair to
//! compare next.

use vstd::prelude::*;
use vstd::string::*;
use vstd::utf8::is_ascii_chars;

use crate::lists::lemma_add_contains;
use crate::pattern::{
    ecosystem_digits, first_group, law_ecosystem_is_read, law_first_release_counts,
    law_first_tag_counts, law_release_is_read, regex_first_group, release_digits, released_at,
    tagged_at, ECOSYSTEM_MAJOR, RELEASE_TAG,
};
use crate::text::{
    contains_char, decimal, decimal_text, find, law_decimal_reads_back, law_no_split,
    law_split_at_first, lemma_decimal, lemma_find, parse_u32, pieces, same_text, split,
    split_at_first, split_once, stands_at, strip_prefix, texts, u32_of,
};

verus! {

/// An RPM package: its name, its version with the epoch in front where there is
/// one, and the major release of Enterprise Linux that it was built for.
#[derive(Debug)]
pub struct RpmPurl {
    pub name: String,
    pub rpm_version: String,
    pub rhel_major: Option<u32>,
}

/// An RPM package, with its name and its version as texts.
pub struct Package {
    pub name: Seq<char>,
    pub version: Seq<char>,
    pub major: Option<u32>,
}

impl View for RpmPurl {
    type V = Package;

    open spec fn view(&self) -> Package {
        Package { name: self.name@, version: self.rpm_version@, major: self.rhel_major }
    }
}

/// The epoch that the qualifiers give, from the `i`-th on: that of the first
/// `epoch=` whose value is a number, or 0.
pub open spec fn epoch_in(params: Seq<Seq<char>>, i: int) -> u32
    decreases params.len() - i,
{
    if i >= params.len() {
        0
    } else {
        match split_at_first(params[i], '=') {
            Some((k, v)) => if k == "epoch"@ && u32_of(v) is Some {
                u32_of(v)->0
            } else {
                epoch_in(params, i + 1)
            },
            None => epoch_in(params, i + 1),
        }
    }
}

/// The name, the version and the epoch in an RPM package URL
/// `pkg:rpm/<namespace>/<name>@<version>?<qualifiers>`.
pub open spec fn rpm_purl_parts(purl: Seq<char>) -> Option<(Seq<char>, Seq<char>, u32)> {
    if !"pkg:rpm/"@.is_prefix_of(purl) {
        None
    } else {
        match split_at_first(purl.skip("pkg:rpm/"@.len() as int), '@') {
            None => None,
            Some((path, tail)) => match split_at_first(path, '/') {
                None => None,
                Some((_, name)) => match split_at_first(tail, '?') {
                    Some((version, qualifiers)) => Some(
                        (name, version, epoch_in(pieces(qualifiers, '&'), 0)),
                    ),
                    None => Some((name, tail, 0)),
                },
            },
        }
    }
}

/// A version with its epoch in front, unless that is 0.
pub open spec fn with_epoch(version: Seq<char>, epoch: u32) -> Seq<char> {
    if epoch > 0 {
        decimal(epoch as nat) + seq![':'] + version
    } else {
        version
    }
}

/// The digits of the distribution tag in a version.
pub open spec fn release_group(version: Seq<char>) -> Option<Seq<char>> {
    if is_ascii_chars(version) {
        release_digits(version, 0)
    } else {
        regex_first_group(RELEASE_TAG@, version)
    }
}

/// The digits of the major release in the name of an ecosystem.
pub open spec fn ecosystem_group(ecosystem: Seq<char>) -> Option<Seq<char>> {
    if is_ascii_chars(ecosystem) {
        ecosystem_digits(ecosystem, 0)
    } else {
        regex_first_group(ECOSYSTEM_MAJOR@, ecosystem)
    }
}

/// The number that a group of digits stands for.
pub open spec fn group_number(group: Option<Seq<char>>) -> Option<u32> {
    match group {
        Some(g) => u32_of(g),
        None => None,
    }
}

/// The package that a package URL names.
pub open spec fn package_of(purl: Seq<char>) -> Option<Package> {
    match rpm_purl_parts(purl) {
        Some((name, version, epoch)) => Some(
            Package {
                name,
                version: with_epoch(version, epoch),
                major: group_number(release_group(version)),
            },
        ),
        None => None,
    }
}

/// The name, the version and the epoch in an RPM package URL.
pub fn split_rpm_purl(purl: &str) -> (r: Option<(String, String, u32)>)
    ensures
        match rpm_purl_parts(purl@) {
            Some((name, version, epoch)) => r matches Some(p) && p.0@ == name && p.1@ == version
                && p.2 == epoch,
            None => r is None,
        },
{
    let body = match strip_prefix(purl, "pkg:rpm/") {
        Some(body) => body,
        None => return None,
    };
    let (path, tail) = match split_once(body.as_str(), '@') {
        Some(p) => p,
        None => return None,
    };
    let (_, name) = match split_once(path.as_str(), '/') {
        Some(p) => p,
        None => return None,
    };
    match split_once(tail.as_str(), '?') {
        Some((version, qualifiers)) => {
            let epoch = read_epoch(&qualifiers);
            Some((name, version, epoch))
        },
        None => Some((name, tail, 0)),
    }
}

/// The epoch that the qualifiers of a package URL give, or 0.
fn read_epoch(qualifiers: &String) -> (epoch: u32)
    ensures
        epoch == epoch_in(pieces(qualifiers@, '&'), 0),
{
    let params = split(qualifiers.as_str(), '&');
    let ghost all = texts(params@);
    for i in 0..params.len()
        invariant
            all == texts(params@),
            all == pieces(qualifiers@, '&'),
            epoch_in(all, 0) == epoch_in(all, i as int),
    {
        assert(all[i as int] == params@[i as int]@);
        if let Some((k, v)) = split_once(params[i].as_str(), '=') {
            if same_text(k.as_str(), "epoch") {
                if let Some(epoch) = parse_u32(v.as_str()) {
                    return epoch;
                }
            }
        }
    }
    0
}

/// Reads an RPM package URL; `None` where it is not of that shape.
pub fn parse_rpm_purl(purl: &str) -> (r: Option<RpmPurl>)
    ensures
        match r {
            Some(p) => package_of(purl@) == Some(p@),
            None => package_of(purl@) is None,
        },
{
    let (name, version, epoch) = match split_rpm_purl(purl) {
        Some(p) => p,
        None => return None,
    };
    let rhel_major = match first_group(RELEASE_TAG, version.as_str()) {
        Some(g) => parse_u32(g.as_str()),
        None => None,
    };
    let rpm_version = if epoch > 0 {
        let mut v = decimal_text(epoch as usize);
        v.push(':');
        v.append(version.as_str());
        assert(v@ =~= with_epoch(version@, epoch));
        v
    } else {
        version
    };
    Some(RpmPurl { name, rpm_version, rhel_major })
}

/// The major release of Enterprise Linux that an ecosystem is about.
pub fn osv_ecosystem_rhel_major(ecosystem: &str) -> (r: Option<u32>)
    ensures
        r == group_number(ecosystem_group(ecosystem@)),
{
    match first_group(ECOSYSTEM_MAJOR, ecosystem) {
        Some(g) => parse_u32(g.as_str()),
        None => None,
    }
}

/// Whether a package and an ecosystem are of the same major release, both being
/// known.
pub open spec fn same_major(package: Option<u32>, ecosystem: Option<u32>) -> bool {
    package is Some && package == ecosystem
}

/// Whether a package belongs to an ecosystem.
pub fn ecosystems_match(purl: &RpmPurl, ecosystem: &str) -> (r: bool)
    ensures
        r == same_major(purl.rhel_major, group_number(ecosystem_group(ecosystem@))),
{
    match (purl.rhel_major, osv_ecosystem_rhel_major(ecosystem)) {
        (Some(purl_major), Some(eco_major)) => purl_major == eco_major,
        _ => false,
    }
}

/// What the program `rpmdev-vercmp` says of two versions, by what it printed and
/// whether it ended well: -1, 0 or 1, or nothing.
pub open spec fn vercmp_says(out: Seq<char>, success: bool) -> Option<i32> {
    if out.contains('<') {
        Some(-1i32)
    } else if out.contains('>') {
        Some(1i32)
    } else if success || out.contains('=') {
        Some(0i32)
    } else {
        None
    }
}

/// Reads what `rpmdev-vercmp` printed.
pub fn vercmp_outcome(out: &str, success: bool) -> (r: Option<i32>)
    ensures
        r == vercmp_says(out@, success),
{
    if contains_char(out, '<') {
        Some(-1)
    } else if contains_char(out, '>') {
        Some(1)
    } else if success || contains_char(out, '=') {
        Some(0)
    } else {
        None
    }
}

/// An RPM package URL names the package between the namespace and the version, and
/// its version as it stands there.
pub proof fn law_package_is_read(namespace: Seq<char>, name: Seq<char>, version: Seq<char>)
    requires
        !namespace.contains('/') && !namespace.contains('@'),
        !name.contains('@'),
        !version.contains('?'),
    ensures
        package_of("pkg:rpm/"@ + namespace + seq!['/'] + name + seq!['@'] + version) == Some(
            Package { name, version, major: group_number(release_group(version)) },
        ),
{
    let purl = "pkg:rpm/"@ + namespace + seq!['/'] + name + seq!['@'] + version;
    lemma_behind_the_type(purl, namespace, name, version);
    law_no_split(version, '?');
}

proof fn lemma_behind_the_type(
    purl: Seq<char>,
    namespace: Seq<char>,
    name: Seq<char>,
    tail: Seq<char>,
)
    requires
        purl == "pkg:rpm/"@ + namespace + seq!['/'] + name + seq!['@'] + tail,
        !namespace.contains('/') && !namespace.contains('@'),
        !name.contains('@'),
    ensures
        "pkg:rpm/"@.is_prefix_of(purl),
        split_at_first(purl.skip("pkg:rpm/"@.len() as int), '@') == Some(
            (namespace + seq!['/'] + name, tail),
        ),
        split_at_first(namespace + seq!['/'] + name, '/') == Some((namespace, name)),
{
    let path = namespace + seq!['/'] + name;
    let n = "pkg:rpm/"@.len() as int;
    assert(purl.take(n) =~= "pkg:rpm/"@);
    assert(purl.skip(n) =~= path + seq!['@'] + tail);
    lemma_add_contains(namespace + seq!['/'], name, '@');
    lemma_add_contains(namespace, seq!['/'], '@');
    law_split_at_first(path, '@', tail);
    law_split_at_first(namespace, '/', name);
}

/// Whether a qualifier is `epoch=` and a number.
pub open spec fn gives_epoch(qualifier: Seq<char>) -> bool {
    "epoch="@.is_prefix_of(qualifier) && u32_of(qualifier.skip("epoch="@.len() as int)) is Some
}

proof fn lemma_epoch_from(params: Seq<Seq<char>>, i: int, k: int)
    requires
        0 <= i <= k <= params.len(),
        forall|j: int| 0 <= j < k ==> !gives_epoch(#[trigger] params[j]),
    ensures
        epoch_in(params, i) == epoch_in(params, k),
    decreases k - i,
{
    if i < k {
        assert(!gives_epoch(params[i]));
        reveal_strlit("epoch");
        reveal_strlit("epoch=");
        lemma_find(params[i], '=', 0);
        if let Some((key, value)) = split_at_first(params[i], '=') {
            let n = find(params[i], '=', 0);
            if key == "epoch"@ {
                assert("epoch"@.len() == 5 && key.len() == n);
                assert(n == 5);
                assert(params[i].take(6) =~= "epoch="@) by {
                    assert forall|m: int| 0 <= m < 6 implies params[i].take(6)[m] == "epoch="@[m] by {
                        if m < 5 {
                            assert(key[m] == params[i][m]);
                            assert("epoch"@[m] == "epoch="@[m]);
                        }
                    }
                }
                assert("epoch="@.is_prefix_of(params[i]));
                assert("epoch="@.len() == 6);
            }
        }
        lemma_epoch_from(params, i + 1, k);
    }
}

/// With qualifiers behind it, the version has the epoch in front that the first
/// `epoch=` with a number among them gives, unless that is 0 or there is none. The major release
/// is that of the version.
pub proof fn law_epoch_is_read(
    namespace: Seq<char>,
    name: Seq<char>,
    version: Seq<char>,
    qualifiers: Seq<char>,
    k: int,
    epoch: u32,
)
    requires
        !namespace.contains('/') && !namespace.contains('@'),
        !name.contains('@'),
        !version.contains('?'),
        0 <= k <= pieces(qualifiers, '&').len(),
        forall|j: int| 0 <= j < k ==> !gives_epoch(#[trigger] pieces(qualifiers, '&')[j]),
        k < pieces(qualifiers, '&').len() ==> "epoch="@.is_prefix_of(pieces(qualifiers, '&')[k])
            && u32_of(pieces(qualifiers, '&')[k].skip("epoch="@.len() as int)) == Some(epoch),
        k == pieces(qualifiers, '&').len() ==> epoch == 0,
    ensures
        package_of(
            "pkg:rpm/"@ + namespace + seq!['/'] + name + seq!['@'] + (version + seq!['?']
                + qualifiers),
        ) == Some(
            Package {
                name,
                version: if epoch > 0 {
                    decimal(epoch as nat) + seq![':'] + version
                } else {
                    version
                },
                major: group_number(release_group(version)),
            },
        ),
{
    let tail = version + seq!['?'] + qualifiers;
    let purl = "pkg:rpm/"@ + namespace + seq!['/'] + name + seq!['@'] + tail;
    let params = pieces(qualifiers, '&');
    lemma_behind_the_type(purl, namespace, name, tail);
    law_split_at_first(version, '?', qualifiers);
    lemma_epoch_from(params, 0, k);
    if k < params.len() {
        reveal_strlit("epoch");
        reveal_strlit("epoch=");
        let value = params[k].skip(6);
        assert("epoch="@.len() == 6);
        assert("epoch="@ =~= params[k].take(6));
        assert("epoch="@ =~= "epoch"@ + seq!['=']);
        assert(params[k] =~= params[k].take(6) + value);
        law_split_at_first("epoch"@, '=', value);
    }
}

/// What is not of that shape names no RPM package: it does not begin with
/// `pkg:rpm/`, has no version or has no namespace.
pub proof fn law_other_purls_are_not_read(purl: Seq<char>, rest: Seq<char>, version: Seq<char>)
    ensures
        !"pkg:rpm/"@.is_prefix_of(purl) ==> package_of(purl) is None,
        !rest.contains('@') ==> package_of("pkg:rpm/"@ + rest) is None,
        !rest.contains('@') && !rest.contains('/') ==> package_of(
            "pkg:rpm/"@ + rest + seq!['@'] + version,
        ) is None,
{
    let n = "pkg:rpm/"@.len() as int;
    let a = "pkg:rpm/"@ + rest;
    let b = "pkg:rpm/"@ + rest + seq!['@'] + version;
    assert(a.skip(n) =~= rest);
    assert(b.skip(n) =~= rest + seq!['@'] + version);
    if !rest.contains('@') {
        law_no_split(rest, '@');
        law_split_at_first(rest, '@', version);
        if !rest.contains('/') {
            law_no_split(rest, '/');
        }
    }
}

/// The major release of a package is the number behind the first `.el` of its
/// version, and that of an ecosystem the number behind its first
/// `:enterprise_linux:`.
pub proof fn law_majors_are_read(
    lead: Seq<char>,
    major: u32,
    tail: Seq<char>,
    behind: Seq<char>,
)
    requires
        tail.len() == 0 || tail[0] == '_' || tail[0] == '.',
        is_ascii_chars(lead + ".el"@ + decimal(major as nat) + tail),
        is_ascii_chars(
            lead + ":enterprise_linux:"@ + decimal(major as nat) + seq![':'] + behind,
        ),
        forall|j: int|
            0 <= j < lead.len() ==> !#[trigger] stands_at(
                ".el"@,
                lead + ".el"@ + decimal(major as nat) + tail,
                j,
            ),
        forall|j: int|
            0 <= j < lead.len() ==> !#[trigger] stands_at(
                ":enterprise_linux:"@,
                lead + ":enterprise_linux:"@ + decimal(major as nat) + seq![':'] + behind,
                j,
            ),
    ensures
        group_number(release_group(lead + ".el"@ + decimal(major as nat) + tail)) == Some(major),
        group_number(
            ecosystem_group(
                lead + ":enterprise_linux:"@ + decimal(major as nat) + seq![':'] + behind,
            ),
        ) == Some(major),
{
    lemma_decimal(major as nat);
    law_release_is_read(lead, decimal(major as nat), tail);
    law_ecosystem_is_read(lead, decimal(major as nat), behind);
    law_decimal_reads_back(major);
}

/// A package belongs to an ecosystem exactly where both have a major release and it
/// is the same.
pub proof fn law_same_major(package: Option<u32>, ecosystem: Option<u32>)
    ensures
        same_major(package, ecosystem) <==> package is Some && ecosystem is Some && package->0
            == ecosystem->0,
{
}

/// The program says that the first version is below where it prints `<`, that it is
/// above where it prints `>` and no `<`, and that they are equal where it prints
/// neither and ends well or prints `=`; else it says nothing.
pub proof fn law_vercmp_is_read(out: Seq<char>, success: bool)
    ensures
        vercmp_says(out, success) == Some(-1i32) <==> out.contains('<'),
        vercmp_says(out, success) == Some(1i32) <==> out.contains('>') && !out.contains('<'),
        vercmp_says(out, success) == Some(0i32) <==> !out.contains('<') && !out.contains('>') && (
        success || out.contains('=')),
        vercmp_says(out, success) is None <==> !out.contains('<') && !out.contains('>')
            && !out.contains('=') && !success,
{
}

/// The major release is the number in the first distribution tag of a version, or in
/// the first release in the name of an ecosystem; without one there is none.
pub proof fn law_first_major_counts(s: Seq<char>, i: int, end: int)
    requires
        is_ascii_chars(s),
    ensures
        tagged_at(s, i, end) && (forall|j: int, e: int|
            0 <= j < i ==> !#[trigger] tagged_at(s, j, e)) ==> group_number(release_group(s))
            == u32_of(s.subrange(i + 3, end)),
        (forall|j: int, e: int| !#[trigger] tagged_at(s, j, e)) ==> group_number(release_group(s))
            is None,
        released_at(s, i, end) && (forall|j: int, e: int|
            0 <= j < i ==> !#[trigger] released_at(s, j, e)) ==> group_number(ecosystem_group(s))
            == u32_of(s.subrange(i + ":enterprise_linux:"@.len(), end)),
        (forall|j: int, e: int| !#[trigger] released_at(s, j, e)) ==> group_number(
            ecosystem_group(s),
        ) is None,
{
    law_first_tag_counts(s, i, end);
    law_first_release_counts(s, i, end);
}

} // verus!
