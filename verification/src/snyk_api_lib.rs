//! What Snyk is asked about the dependencies of a Maven project.

use vstd::prelude::*;
use vstd::string::*;

use crate::json::Json;
use crate::text::{
    char_is_whitespace, chars_of, find_text, is_white_space, match_at, occurs_in, replace_char,
    stands_at, string_in, texts, with_replaced,
};

verus! {

/// The CVEs that a vulnerability is known under.
#[allow(non_snake_case)]
#[derive(Debug)]
pub struct CVE {
    pub CVE: Option<Vec<String>>,
}

/// Where Snyk tests Maven packages.
pub const SNYK_MAVEN_URL: &'static str = "https://api.snyk.io/v1/test/maven";

/// The JSON text that the `xmltojson` crate makes of an XML text.
pub uninterp spec fn json_of_xml(xml: Seq<char>) -> Option<Seq<char>>;

/// How an element begins that has the name under which character data is kept.
pub const CDATA_ELEMENT: &'static str = "<#cdata";

/// How such an element begins that has no attributes.
pub const CDATA_OPEN: &'static str = "<#cdata>";

/// How such an element ends.
pub const CDATA_CLOSE: &'static str = "</#cdata>";

/// How a section of character data begins.
pub const CDATA_SECTION: &'static str = "<![CDATA[";

/// Whether the element that begins at `i` is `<#cdata>`, text up to `n`, and
/// `</#cdata>`, where the text is not blank and has no markup and no reference
/// in it.
pub open spec fn holds_text(xml: Seq<char>, i: int, n: int) -> bool {
    let from = i + CDATA_OPEN@.len();
    &&& stands_at(CDATA_OPEN@, xml, i)
    &&& from <= n && stands_at(CDATA_CLOSE@, xml, n)
    &&& forall|k: int| from <= k < n ==> #[trigger] xml[k] != '<' && xml[k] != '&'
    &&& exists|k: int| from <= k < n && !is_white_space(#[trigger] xml[k])
}

/// Whether nothing of that name stands before `i`, neither an element nor a
/// section.
pub open spec fn comes_first(xml: Seq<char>, i: int) -> bool {
    &&& forall|j: int| #[trigger] stands_at(CDATA_ELEMENT@, xml, j) ==> i <= j
    &&& !occurs_in(CDATA_SECTION@, xml.take(i))
}

/// Whether character data may be found next to an element of its name that is no
/// text: whether a section stands behind such an element, and the element does
/// not come first or holds anything but text.
pub open spec fn cdata_clash(xml: Seq<char>) -> bool {
    exists|i: int| #[trigger]
        stands_at(CDATA_ELEMENT@, xml, i) && occurs_in(
            CDATA_SECTION@,
            xml.skip(i + CDATA_ELEMENT@.len()),
        ) && !(comes_first(xml, i) && exists|n: int| holds_text(xml, i, n))
}

fn element_holds_text(v: &Vec<char>, i: usize) -> (r: bool)
    requires
        i <= v@.len(),
    ensures
        r == exists|n: int| holds_text(v@, i as int, n),
{
    let len = v.len();
    let open = chars_of(CDATA_OPEN);
    let close = chars_of(CDATA_CLOSE);
    if !match_at(v, &open, i) {
        return false;
    }
    proof {
        reveal_strlit("</#cdata>");
    }
    let from = i + open.len();
    let mut n = from;
    let mut blank = true;
    while n < len && v[n] != '<' && v[n] != '&'
        invariant
            from <= n <= len,
            len == v@.len(),
            forall|k: int| from <= k < n ==> #[trigger] v@[k] != '<' && v@[k] != '&',
            blank == forall|k: int| from <= k < n ==> is_white_space(#[trigger] v@[k]),
        decreases len - n,
    {
        if !char_is_whitespace(v[n]) {
            blank = false;
        }
        n += 1;
    }
    let r = !blank && match_at(v, &close, n);
    proof {
        if r {
            assert(holds_text(v@, i as int, n as int));
        }
        if exists|m: int| holds_text(v@, i as int, m) {
            let m = choose|m: int| holds_text(v@, i as int, m);
            assert(v@.subrange(m, m + CDATA_CLOSE@.len())[0] == '<');
            assert(v@[m] == '<');
            assert(m == n);
        }
    }
    r
}

proof fn lemma_behind(p: Seq<char>, s: Seq<char>, from: int)
    requires
        0 <= from <= s.len(),
    ensures
        occurs_in(p, s.skip(from)) <==> exists|j: int| from <= j && #[trigger] stands_at(p, s, j),
{
    let rest = s.skip(from);
    if occurs_in(p, rest) {
        let k = choose|k: int| #[trigger] stands_at(p, rest, k);
        assert(s.subrange(from + k, from + k + p.len()) =~= rest.subrange(k, k + p.len()));
        assert(stands_at(p, s, from + k));
    }
    if exists|j: int| from <= j && #[trigger] stands_at(p, s, j) {
        let j = choose|j: int| from <= j && #[trigger] stands_at(p, s, j);
        assert(rest.subrange(j - from, j - from + p.len()) =~= s.subrange(j, j + p.len()));
        assert(stands_at(p, rest, j - from));
    }
}

proof fn lemma_before(p: Seq<char>, s: Seq<char>, to: int)
    requires
        0 <= to <= s.len(),
    ensures
        occurs_in(p, s.take(to)) <==> exists|j: int|
            #[trigger] stands_at(p, s, j) && j + p.len() <= to,
{
    let lead = s.take(to);
    if occurs_in(p, lead) {
        let k = choose|k: int| #[trigger] stands_at(p, lead, k);
        assert(s.subrange(k, k + p.len()) =~= lead.subrange(k, k + p.len()));
        assert(stands_at(p, s, k));
    }
    if exists|j: int| #[trigger] stands_at(p, s, j) && j + p.len() <= to {
        let j = choose|j: int| #[trigger] stands_at(p, s, j) && j + p.len() <= to;
        assert(lead.subrange(j, j + p.len()) =~= s.subrange(j, j + p.len()));
        assert(stands_at(p, lead, j));
    }
}

/// Whether character data may be found next to an element of its name that is no
/// text.
fn clashes(xml: &str) -> (r: bool)
    ensures
        r == cdata_clash(xml@),
{
    let v = chars_of(xml);
    let element = chars_of(CDATA_ELEMENT);
    let section = chars_of(CDATA_SECTION);
    let ghost s = xml@;
    let ghost e = CDATA_ELEMENT@;
    let ghost c = CDATA_SECTION@;
    assert(v.len() == v@.len());
    let i = match find_text(&v, &element, 0) {
        Some(i) => i,
        None => return false,
    };
    assert(stands_at(e, s, i as int));
    let behind = find_text(&v, &section, i + element.len());
    proof {
        assert forall|j: int| #[trigger] stands_at(e, s, j) && behind is None implies !occurs_in(
            c,
            s.skip(j + e.len()),
        ) by {
            lemma_behind(c, s, j + e.len());
        }
    }
    if behind.is_none() {
        return false;
    }
    proof {
        assert(stands_at(c, s, behind->0 as int));
        lemma_behind(c, s, i + e.len());
        lemma_before(c, s, i as int);
    }
    if !element_holds_text(&v, i) {
        return true;
    }
    if let Some(k) = find_text(&v, &section, 0) {
        assert(stands_at(c, s, k as int));
        if k + section.len() <= i {
            return true;
        }
    }
    assert(comes_first(s, i as int));
    if let Some(k) = find_text(&v, &element, i + 1) {
        assert(stands_at(e, s, k as int));
        let more = find_text(&v, &section, k + element.len());
        if let Some(m) = more {
            proof {
                assert(stands_at(c, s, m as int));
                lemma_behind(c, s, k + e.len());
                assert(!comes_first(s, k as int));
            }
            return true;
        }
        proof {
            assert forall|j: int| #[trigger] stands_at(e, s, j) && j != i implies !occurs_in(
                c,
                s.skip(j + e.len()),
            ) by {
                lemma_behind(c, s, j + e.len());
            }
        }
    }
    false
}

/// `xmltojson::to_json`, and the JSON text of what it returns. The result is
/// named: it depends on the text alone. It succeeds on every text, well formed or
/// not, but for one panic: a section of character data is kept under the name
/// `#cdata`, behind what is held there, and what an element of that name, which
/// no XML has, has put there need not be text. Texts where that may happen are
/// left out. Which parent an element and a section belong to is not looked at:
/// where they have different ones it would not panic, and the text is left out
/// all the same. Elements that are nested very deep can exhaust the stack.
#[verifier::external_body]
fn xml_to_json(xml: &str) -> (r: Option<String>)
    requires
        !cdata_clash(xml@),
    ensures
        string_in(r) == json_of_xml(xml@),
        r is Some,
{
    match xmltojson::to_json(xml) {
        Ok(value) => Some(value.to_string()),
        Err(_) => None,
    }
}

/// The JSON text of the XML of a project's dependencies; `None` where a section of
/// character data may meet an element that no XML has.
pub fn pom_json(xml: &str) -> (r: Option<String>)
    ensures
        r is None <==> cdata_clash(xml@),
        r is Some ==> string_in(r) == json_of_xml(xml@),
{
    if clashes(xml) {
        None
    } else {
        xml_to_json(xml)
    }
}

/// The dependencies of a project.
pub open spec fn pom_dependencies(input: Json) -> Option<Seq<Json>> {
    match input.field("dependencies"@) {
        Some(dependencies) => dependencies.items_field("dependency"@),
        None => None,
    }
}

/// Whether a dependency has a group, a name and a version.
pub open spec fn is_dependency(item: Json) -> bool {
    &&& item.text_field("groupId"@) is Some
    &&& item.text_field("artifactId"@) is Some
    &&& item.text_field("version"@) is Some
}

/// Whether all items have a group, a name and a version.
pub open spec fn are_dependencies(items: Seq<Json>) -> bool {
    forall|i: int| 0 <= i < items.len() ==> is_dependency(#[trigger] items[i])
}

/// Whether there is a list of dependencies, each with a group, a name and a
/// version.
pub open spec fn is_pom(input: Json) -> bool {
    match pom_dependencies(input) {
        Some(items) => are_dependencies(items),
        None => false,
    }
}

/// What Snyk is asked about a dependency.
pub open spec fn endpoint(item: Json) -> Seq<char> {
    "/"@ + item.text_field("groupId"@)->0 + "/"@ + item.text_field("artifactId"@)->0 + "@"@
        + item.text_field("version"@)->0
}

fn dependencies_of(input: &Json) -> (r: Option<&Vec<Json>>)
    ensures
        match r {
            Some(items) => pom_dependencies(*input) == Some(items@),
            None => pom_dependencies(*input) is None,
        },
{
    match input.get("dependencies") {
        Some(dependencies) => dependencies.get_array("dependency"),
        None => None,
    }
}

/// Whether there is a list of dependencies, each with a group, a name and a
/// version.
pub fn lists_dependencies(input: &Json) -> (r: bool)
    ensures
        r == is_pom(*input),
{
    let items = match dependencies_of(input) {
        Some(items) => items,
        None => return false,
    };
    for i in 0..items.len()
        invariant
            pom_dependencies(*input) == Some(items@),
            forall|j: int| 0 <= j < i ==> is_dependency(#[trigger] items@[j]),
    {
        let item = &items[i];
        if item.get_str("groupId").is_none() || item.get_str("artifactId").is_none()
            || item.get_str("version").is_none() {
            assert(!are_dependencies(items@));
            return false;
        }
    }
    true
}

fn endpoint_of(item: &Json) -> (r: String)
    requires
        is_dependency(*item),
    ensures
        r@ == endpoint(*item),
{
    let mut r = "/".to_owned();
    if let Some(group) = item.get_str("groupId") {
        r.append(group);
    }
    r.append("/");
    if let Some(artifact) = item.get_str("artifactId") {
        r.append(artifact);
    }
    r.append("@");
    if let Some(version) = item.get_str("version") {
        r.append(version);
    }
    r
}

/// What Snyk is asked about each dependency of a project.
pub fn retrieve_snyk_endpoints(input: Json) -> (r: Vec<String>)
    requires
        is_pom(input),
    ensures
        texts(r@) == pom_dependencies(input)->0.map_values(|item: Json| endpoint(item)),
{
    let ghost all = pom_dependencies(input)->0;
    let ghost f = |item: Json| endpoint(item);
    let mut r: Vec<String> = Vec::new();
    if let Some(items) = dependencies_of(&input) {
        for i in 0..items.len()
            invariant
                all == items@,
                f == (|item: Json| endpoint(item)),
                forall|j: int| 0 <= j < all.len() ==> is_dependency(#[trigger] all[j]),
                texts(r@) == all.map_values(f).take(i as int),
        {
            let ghost before = r@;
            let text = endpoint_of(&items[i]);
            let ghost t = text@;
            r.push(text);
            assert(texts(r@) =~= texts(before).push(t));
            assert(all.map_values(f).take(i + 1) =~= all.map_values(f).take(i as int).push(t));
        }
    }
    assert(all.map_values(f).take(all.len() as int) =~= all.map_values(f));
    r
}

/// Where Snyk answers what it is asked about a dependency.
pub fn snyk_url(endpoint: &str) -> (r: String)
    ensures
        r@ == SNYK_MAVEN_URL@ + with_replaced(endpoint@, '@', '/'),
        r@ == "https://api.snyk.io/v1/test/maven"@ + with_replaced(endpoint@, '@', '/'),
{
    let mut r = SNYK_MAVEN_URL.to_owned();
    r.append(replace_char(endpoint, '@', '/').as_str());
    r
}

/// There is a question for each dependency of a project, in their order: its group,
/// its name and its version.
pub proof fn law_every_dependency_is_asked_about(
    asked: Seq<String>,
    input: Json,
    dependencies: Json,
    items: Seq<Json>,
    i: int,
    group: Seq<char>,
    artifact: Seq<char>,
    version: Seq<char>,
)
    requires
        input.field("dependencies"@) == Some(dependencies),
        dependencies.items_field("dependency"@) == Some(items),
        texts(asked) == pom_dependencies(input)->0.map_values(|item: Json| endpoint(item)),
        0 <= i < items.len(),
        items[i].text_field("groupId"@) == Some(group),
        items[i].text_field("artifactId"@) == Some(artifact),
        items[i].text_field("version"@) == Some(version),
    ensures
        asked.len() == items.len(),
        asked[i]@ == seq!['/'] + group + seq!['/'] + artifact + seq!['@'] + version,
{
    reveal_strlit("/");
    reveal_strlit("@");
    assert("/"@ =~= seq!['/']);
    assert("@"@ =~= seq!['@']);
    assert(texts(asked).len() == asked.len());
    assert(texts(asked)[i] == asked[i]@);
}

/// A project lists its dependencies exactly where there is a list of them and each
/// has a group, a name and a version.
pub proof fn law_listed_dependencies(input: Json, dependencies: Json, items: Seq<Json>)
    requires
        input.field("dependencies"@) == Some(dependencies),
        dependencies.items_field("dependency"@) == Some(items),
    ensures
        is_pom(input) <==> forall|i: int|
            0 <= i < items.len() ==> (#[trigger] items[i]).text_field("groupId"@) is Some
                && items[i].text_field("artifactId"@) is Some && items[i].text_field("version"@)
                is Some,
{
    if is_pom(input) {
        assert forall|i: int| 0 <= i < items.len() implies (#[trigger] items[i]).text_field(
            "groupId"@,
        ) is Some && items[i].text_field("artifactId"@) is Some && items[i].text_field("version"@)
            is Some by {
            assert(is_dependency(items[i]));
        }
    }
}

/// A text without an element of the name of character data, or without a section of
/// it, is converted whatever else it holds.
pub proof fn law_usual_texts_are_converted(xml: Seq<char>)
    ensures
        !occurs_in("<#cdata"@, xml) ==> !cdata_clash(xml),
        !occurs_in("<![CDATA["@, xml) ==> !cdata_clash(xml),
{
    if cdata_clash(xml) {
        let i = choose|i: int| #[trigger]
            stands_at(CDATA_ELEMENT@, xml, i) && occurs_in(
                CDATA_SECTION@,
                xml.skip(i + CDATA_ELEMENT@.len()),
            ) && !(comes_first(xml, i) && exists|n: int| holds_text(xml, i, n));
        lemma_behind(CDATA_SECTION@, xml, i + CDATA_ELEMENT@.len());
        assert(occurs_in(CDATA_ELEMENT@, xml));
        let j = choose|j: int|
            i + CDATA_ELEMENT@.len() <= j && #[trigger] stands_at(CDATA_SECTION@, xml, j);
        assert(occurs_in(CDATA_SECTION@, xml));
    }
}

/// An element of the name of character data that is the only one, holds text that is not
/// blank, and has no section before it does not stand in the way of the conversion.
pub proof fn law_text_does_not_clash(xml: Seq<char>, i: int, n: int)
    requires
        stands_at("<#cdata>"@, xml, i),
        i + "<#cdata>"@.len() <= n,
        stands_at("</#cdata>"@, xml, n),
        forall|k: int| i + "<#cdata>"@.len() <= k < n ==> #[trigger] xml[k] != '<' && xml[k] != '&',
        exists|k: int| i + "<#cdata>"@.len() <= k < n && !is_white_space(#[trigger] xml[k]),
        forall|j: int| #[trigger] stands_at("<#cdata"@, xml, j) ==> j == i,
        forall|j: int| #[trigger] stands_at("<![CDATA["@, xml, j) ==> i <= j,
    ensures
        !cdata_clash(xml),
{
    reveal_strlit("<![CDATA[");
    assert(holds_text(xml, i, n));
    lemma_before(CDATA_SECTION@, xml, i);
    assert(comes_first(xml, i));
}

/// Behind an element of the name of character data a section stands in the way if there
/// is a section or another such element before the element, or if the element has an
/// attribute, is blank, or has markup or a reference in it.
pub proof fn law_section_clashes(xml: Seq<char>, i: int, j: int, k: int)
    requires
        stands_at("<#cdata"@, xml, i),
        i + "<#cdata"@.len() <= j,
        stands_at("<![CDATA["@, xml, j),
    ensures
        k < i && stands_at("<#cdata"@, xml, k) ==> cdata_clash(xml),
        k + "<![CDATA["@.len() <= i && stands_at("<![CDATA["@, xml, k) ==> cdata_clash(xml),
        !stands_at("<#cdata>"@, xml, i) ==> cdata_clash(xml),
        i + "<#cdata>"@.len() <= k < xml.len() && (xml[k] == '<' || xml[k] == '&') && !stands_at(
            "</#cdata>"@,
            xml,
            k,
        ) && (forall|m: int|
            i + "<#cdata>"@.len() <= m < k ==> #[trigger] xml[m] != '<') ==> cdata_clash(xml),
        i + "<#cdata>"@.len() <= k < xml.len() && xml[k] == '<' && (forall|m: int|
            i + "<#cdata>"@.len() <= m < k ==> is_white_space(#[trigger] xml[m])) ==> cdata_clash(
            xml,
        ),
{
    lemma_behind(CDATA_SECTION@, xml, i + CDATA_ELEMENT@.len());
    if !cdata_clash(xml) {
        assert(comes_first(xml, i) && exists|n: int| holds_text(xml, i, n));
        let n = choose|n: int| holds_text(xml, i, n);
        lemma_before(CDATA_SECTION@, xml, i);
        reveal_strlit("</#cdata>");
        assert(xml.subrange(n, n + CDATA_CLOSE@.len())[0] == '<');
        assert(xml[n] == '<');
    }
}

} // verus!
