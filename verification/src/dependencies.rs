//! Which packages a package depends on, directly or through others.

use vstd::prelude::*;
use vstd::string::*;

use crate::sbom_cdx::{CdxComponent, CdxDependency, CycloneDXBOM};
use crate::str_map::StrMap;
use crate::text::{copy_texts, same_text, texts};

verus! {

/// What a package depends on directly, for each package; `None` where that is
/// not known.
pub type Tree = Map<Seq<char>, Option<Vec<String>>>;

/// What a package depends on directly.
pub open spec fn deps_of(tree: Tree, purl: Seq<char>) -> Seq<Seq<char>> {
    if tree.contains_key(purl) {
        match tree[purl] {
            Some(deps) => texts(deps@),
            None => Seq::empty(),
        }
    } else {
        Seq::empty()
    }
}

/// Whether each package on a path is a dependency of the one before it, and none
/// behind the first is to be avoided.
pub open spec fn is_path(tree: Tree, avoid: Set<Seq<char>>, path: Seq<Seq<char>>) -> bool {
    &&& path.len() > 1
    &&& forall|k: int|
        0 < k < path.len() ==> deps_of(tree, path[k - 1]).contains(#[trigger] path[k])
            && !avoid.contains(path[k])
}

/// Whether a package depends on another, directly or through others, none of
/// which is to be avoided.
pub open spec fn depends_on(
    tree: Tree,
    avoid: Set<Seq<char>>,
    purl: Seq<char>,
    other: Seq<char>,
) -> bool {
    exists|path: Seq<Seq<char>>| #[trigger]
        is_path(tree, avoid, path) && path[0] == purl && path.last() == other
}

/// Whether all that a package depends on directly is in a set.
spec fn closed_at(tree: Tree, s: Set<Seq<char>>, purl: Seq<char>) -> bool {
    forall|d: Seq<char>| #[trigger] deps_of(tree, purl).contains(d) ==> s.contains(d)
}

proof fn lemma_one_step(tree: Tree, avoid: Set<Seq<char>>, purl: Seq<char>, dep: Seq<char>)
    requires
        deps_of(tree, purl).contains(dep),
        !avoid.contains(dep),
    ensures
        depends_on(tree, avoid, purl, dep),
{
    let path = seq![purl, dep];
    assert(is_path(tree, avoid, path));
}

proof fn lemma_step_on(
    tree: Tree,
    avoid: Set<Seq<char>>,
    more: Set<Seq<char>>,
    purl: Seq<char>,
    dep: Seq<char>,
    other: Seq<char>,
)
    requires
        deps_of(tree, purl).contains(dep),
        !avoid.contains(dep),
        avoid.subset_of(more),
        depends_on(tree, more, dep, other),
    ensures
        depends_on(tree, avoid, purl, other),
{
    let tail = choose|path: Seq<Seq<char>>| #[trigger]
        is_path(tree, more, path) && path[0] == dep && path.last() == other;
    let path = seq![purl] + tail;
    assert forall|k: int| 0 < k < path.len() implies deps_of(tree, path[k - 1]).contains(
        #[trigger] path[k],
    ) && !avoid.contains(path[k]) by {
        if k > 1 {
            assert(path[k] == tail[k - 1]);
            assert(path[k - 1] == tail[k - 2]);
        }
    }
    assert(is_path(tree, avoid, path));
}

/// Adds what a package depends on to those that were found.
fn visit(
    purl: &str,
    deptree: &StrMap<Option<Vec<String>>>,
    found: &mut StrMap<bool>,
    Ghost(all): Ghost<Set<Seq<char>>>,
)
    requires
        all.finite(),
        forall|p: Seq<char>, d: Seq<char>| #[trigger]
            deps_of(deptree@, p).contains(d) ==> all.contains(d),
    ensures
        old(found)@.dom().subset_of(final(found)@.dom()),
        closed_at(deptree@, final(found)@.dom(), purl@),
        forall|p: Seq<char>| #[trigger]
            final(found)@.contains_key(p) && !old(found)@.contains_key(p) ==> {
                &&& closed_at(deptree@, final(found)@.dom(), p)
                &&& depends_on(deptree@, old(found)@.dom(), purl@, p)
            },
    decreases all.difference(old(found)@.dom()).len(),
{
    let ghost tree = deptree@;
    let ghost before = found@.dom();
    let deps = match deptree.get(purl) {
        Some(Some(deps)) => deps,
        _ => return ,
    };
    assert(deps_of(tree, purl@) == texts(deps@));
    for i in 0..deps.len()
        invariant
            tree == deptree@,
            before == old(found)@.dom(),
            deps_of(tree, purl@) == texts(deps@),
            all.finite(),
            forall|p: Seq<char>, d: Seq<char>| #[trigger]
                deps_of(tree, p).contains(d) ==> all.contains(d),
            before.subset_of(found@.dom()),
            forall|j: int| 0 <= j < i ==> found@.contains_key(#[trigger] texts(deps@)[j]),
            forall|p: Seq<char>| #[trigger]
                found@.contains_key(p) && !before.contains(p) ==> {
                    &&& closed_at(tree, found@.dom(), p)
                    &&& depends_on(tree, before, purl@, p)
                },
    {
        let dep = &deps[i];
        let ghost d = dep@;
        let ghost held = found@.dom();
        assert(texts(deps@)[i as int] == d);
        assert(deps_of(tree, purl@).contains(d));
        if !found.contains_key(dep.as_str()) {
            found.insert(dep.clone(), true);
            let ghost entered = found@.dom();
            assert(entered =~= held.insert(d));
            proof {
                assert(all.difference(entered).subset_of(all.difference(before).remove(d)));
                vstd::set_lib::lemma_len_subset(
                    all.difference(entered),
                    all.difference(before).remove(d),
                );
                assert(all.difference(before).contains(d));
            }
            visit(dep.as_str(), deptree, found, Ghost(all));
            proof {
                assert forall|p: Seq<char>| #[trigger]
                    found@.contains_key(p) && !before.contains(p) implies closed_at(
                    tree,
                    found@.dom(),
                    p,
                ) && depends_on(tree, before, purl@, p) by {
                    if held.contains(p) {
                        assert(closed_at(tree, held, p));
                    } else if p == d {
                        lemma_one_step(tree, before, purl@, d);
                    } else {
                        lemma_step_on(tree, before, entered, purl@, d, p);
                    }
                }
            }
        }
    }
    assert forall|d: Seq<char>| #[trigger] deps_of(tree, purl@).contains(
        d,
    ) implies found@.contains_key(d) by {
        let j = choose|j: int| 0 <= j < texts(deps@).len() && texts(deps@)[j] == d;
        assert(found@.contains_key(texts(deps@)[j]));
    }
}

proof fn lemma_all_deps(tree: Tree, keys: Seq<Seq<char>>) -> (all: Set<Seq<char>>)
    ensures
        all.finite(),
        forall|p: Seq<char>, d: Seq<char>| #[trigger]
            deps_of(tree, p).contains(d) && keys.contains(p) ==> all.contains(d),
    decreases keys.len(),
{
    if keys.len() == 0 {
        Set::empty()
    } else {
        let rest = keys.drop_last();
        let before = lemma_all_deps(tree, rest);
        let last = deps_of(tree, keys.last());
        vstd::seq_lib::seq_to_set_is_finite(last);
        let all = before.union(last.to_set());
        assert forall|p: Seq<char>, d: Seq<char>| #[trigger]
            deps_of(tree, p).contains(d) && keys.contains(p) implies all.contains(d) by {
            let i = choose|i: int| 0 <= i < keys.len() && keys[i] == p;
            if i < rest.len() {
                assert(rest[i] == p);
                assert(rest.contains(p));
            } else {
                assert(last.contains(d));
            }
        }
        all
    }
}

proof fn lemma_path_inside(
    tree: Tree,
    avoid: Set<Seq<char>>,
    s: Set<Seq<char>>,
    path: Seq<Seq<char>>,
    k: int,
)
    requires
        is_path(tree, avoid, path),
        closed_at(tree, s, path[0]),
        forall|p: Seq<char>| #[trigger]
            s.contains(p) && !avoid.contains(p) ==> closed_at(tree, s, p),
        0 < k < path.len(),
    ensures
        s.contains(path[k]),
    decreases k,
{
    assert(deps_of(tree, path[k - 1]).contains(path[k]));
    if k > 1 {
        lemma_path_inside(tree, avoid, s, path, k - 1);
        assert(!avoid.contains(path[k - 1]));
    }
}

/// The texts that may be given.
pub open spec fn texts_in(v: Option<Vec<String>>) -> Seq<Seq<char>> {
    match v {
        Some(v) => texts(v@),
        None => Seq::empty(),
    }
}

/// What a package depends on, directly or through others, each once, together
/// with the packages that were given; the search does not go through those.
pub fn flatten_dependencies(
    purl: &str,
    deptree: StrMap<Option<Vec<String>>>,
    exist_dep: Option<Vec<String>>,
) -> (r: Vec<String>)
    ensures
        texts(r@).no_duplicates(),
        forall|p: Seq<char>| #[trigger]
            texts(r@).contains(p) <==> texts_in(exist_dep).contains(p) || depends_on(
                deptree@,
                texts_in(exist_dep).to_set(),
                purl@,
                p,
            ),
{
    let ghost given = texts_in(exist_dep);
    let mut found: StrMap<bool> = StrMap::new();
    if let Some(exist) = exist_dep {
        for i in 0..exist.len()
            invariant
                given == texts(exist@),
                forall|p: Seq<char>| #[trigger]
                    found@.contains_key(p) <==> given.take(i as int).contains(p),
        {
            let ghost before = found@;
            found.insert(exist[i].clone(), true);
            let ghost held = given.take(i as int);
            let ghost now = given.take(i + 1);
            assert(now =~= held.push(exist@[i as int]@));
            assert forall|p: Seq<char>| #[trigger] found@.contains_key(p) <==> now.contains(p) by {
                assert(before.contains_key(p) <==> held.contains(p));
                if held.contains(p) {
                    let k = choose|k: int| 0 <= k < held.len() && held[k] == p;
                    assert(now[k] == p);
                }
                assert(now[i as int] == exist@[i as int]@);
            }
        }
        assert(given.take(given.len() as int) =~= given);
    }
    let ghost avoid = given.to_set();
    assert(found@.dom() =~= avoid);
    // The tree has finitely many keys, which is what ends the search.
    let _ = deptree.len();
    let ghost tree = deptree@;
    let ghost all = lemma_all_deps(tree, deptree.keys());
    proof {
        assert forall|p: Seq<char>, d: Seq<char>| #[trigger]
            deps_of(tree, p).contains(d) implies all.contains(d) by {
            assert(tree.contains_key(p));
            assert(deptree.keys().to_set().contains(p));
            assert(deptree.keys().contains(p));
        }
    }
    visit(purl, &deptree, &mut found, Ghost(all));
    let ghost s = found@.dom();
    let (r, _) = found.into_parts();
    proof {
        assert forall|p: Seq<char>| #[trigger] texts(r@).contains(p) <==> given.contains(p)
            || depends_on(tree, avoid, purl@, p) by {
            assert(texts(r@).to_set().contains(p) <==> texts(r@).contains(p));
            assert(s.contains(p) <==> texts(r@).contains(p));
            assert(avoid.contains(p) <==> given.contains(p));
            if depends_on(tree, avoid, purl@, p) {
                let path = choose|path: Seq<Seq<char>>| #[trigger]
                    is_path(tree, avoid, path) && path[0] == purl@ && path.last() == p;
                lemma_path_inside(tree, avoid, s, path, path.len() - 1);
            }
        }
    }
    r
}

/// What the last of the first `n` statements about a package that says anything
/// says it depends on.
pub open spec fn stated_before(
    statements: Seq<CdxDependency>,
    purl: Seq<char>,
    n: int,
) -> Option<Seq<Seq<char>>>
    decreases n,
{
    if n <= 0 {
        None
    } else {
        match statements[n - 1].dependsOn {
            Some(deps) => if statements[n - 1].dependency_ref@ == purl {
                Some(texts(deps@))
            } else {
                stated_before(statements, purl, n - 1)
            },
            None => stated_before(statements, purl, n - 1),
        }
    }
}

/// What a bill of materials says that a package depends on.
pub open spec fn stated(bom: CycloneDXBOM, purl: Seq<char>) -> Option<Seq<Seq<char>>> {
    match bom.dependencies {
        Some(statements) => stated_before(statements@, purl, statements@.len() as int),
        None => None,
    }
}

/// Whether a bill of materials has a component with that package URL.
pub open spec fn has_component(bom: CycloneDXBOM, purl: Seq<char>) -> bool {
    exists|i: int|
        0 <= i < bom.components@.len() && is_component(#[trigger] bom.components@[i], purl)
}

/// Whether a component has that package URL.
pub open spec fn is_component(component: CdxComponent, purl: Seq<char>) -> bool {
    match component.purl {
        Some(p) => p@ == purl,
        None => false,
    }
}

/// The texts that may be there.
pub open spec fn some_texts(v: Option<Vec<String>>) -> Option<Seq<Seq<char>>> {
    match v {
        Some(v) => Some(texts(v@)),
        None => None,
    }
}

fn find_stated(bom: &CycloneDXBOM, purl: &str) -> (r: Option<Vec<String>>)
    ensures
        some_texts(r) == stated(*bom, purl@),
{
    let statements = match &bom.dependencies {
        Some(statements) => statements,
        None => return None,
    };
    let mut n = statements.len();
    while n > 0
        invariant
            n <= statements@.len(),
            stated(*bom, purl@) == stated_before(statements@, purl@, n as int),
        decreases n,
    {
        n -= 1;
        if let Some(deps) = &statements[n].dependsOn {
            if same_text(statements[n].dependency_ref.as_str(), purl) {
                return Some(copy_texts(deps));
            }
        }
    }
    None
}

/// What each component of a bill of materials that has a package URL depends on
/// directly.
pub fn get_dep_tree(data: &CycloneDXBOM) -> (r: StrMap<Option<Vec<String>>>)
    ensures
        forall|p: Seq<char>| #[trigger] r@.contains_key(p) <==> has_component(*data, p),
        forall|p: Seq<char>| #[trigger]
            r@.contains_key(p) ==> some_texts(r@[p]) == stated(*data, p),
{
    let mut tree: StrMap<Option<Vec<String>>> = StrMap::new();
    let ghost all = data.components@;
    for i in 0..data.components.len()
        invariant
            all == data.components@,
            forall|p: Seq<char>| #[trigger]
                tree@.contains_key(p) <==> exists|j: int|
                    0 <= j < i && is_component(#[trigger] all[j], p),
            forall|p: Seq<char>| #[trigger]
                tree@.contains_key(p) ==> some_texts(tree@[p]) == stated(*data, p),
    {
        let ghost before = tree@;
        if let Some(purl) = &data.components[i].purl {
            let deps = find_stated(data, purl.as_str());
            tree.insert(purl.clone(), deps);
        }
        assert forall|p: Seq<char>| #[trigger] tree@.contains_key(p) <==> exists|j: int|
            0 <= j < i + 1 && is_component(#[trigger] all[j], p) by {
            assert(before.contains_key(p) <==> exists|j: int|
                0 <= j < i && is_component(#[trigger] all[j], p));
            assert(is_component(all[i as int], p) || !is_component(all[i as int], p));
        }
    }
    tree
}

/// What a package depends on depends on is among what it depends on.
pub proof fn law_depends_on_is_transitive(
    tree: Tree,
    avoid: Set<Seq<char>>,
    a: Seq<char>,
    b: Seq<char>,
    c: Seq<char>,
)
    requires
        depends_on(tree, avoid, a, b),
        depends_on(tree, avoid, b, c),
    ensures
        depends_on(tree, avoid, a, c),
{
    let first = choose|path: Seq<Seq<char>>| #[trigger]
        is_path(tree, avoid, path) && path[0] == a && path.last() == b;
    let second = choose|path: Seq<Seq<char>>| #[trigger]
        is_path(tree, avoid, path) && path[0] == b && path.last() == c;
    let path = first + second.drop_first();
    assert forall|k: int| 0 < k < path.len() implies deps_of(tree, path[k - 1]).contains(
        #[trigger] path[k],
    ) && !avoid.contains(path[k]) by {
        if k < first.len() {
            assert(path[k] == first[k]);
            assert(path[k - 1] == first[k - 1]);
        } else {
            let m = k - first.len() + 1;
            assert(path[k] == second[m]);
            assert(path[k - 1] == second[m - 1]);
        }
    }
    assert(is_path(tree, avoid, path));
}

/// A package that is among the dependencies and not to be avoided brings along
/// what it depends on directly.
pub proof fn law_dependencies_are_closed(
    tree: Tree,
    avoid: Set<Seq<char>>,
    a: Seq<char>,
    b: Seq<char>,
    c: Seq<char>,
)
    requires
        a == b || depends_on(tree, avoid, a, b),
        deps_of(tree, b).contains(c),
    ensures
        avoid.contains(c) || depends_on(tree, avoid, a, c),
{
    if !avoid.contains(c) {
        lemma_one_step(tree, avoid, b, c);
        if a != b {
            law_depends_on_is_transitive(tree, avoid, a, b, c);
        }
    }
}

proof fn lemma_stated_at(statements: Seq<CdxDependency>, purl: Seq<char>, k: int, n: int)
    requires
        -1 <= k < n <= statements.len() || k == -1 && n == 0,
        forall|j: int|
            k < j < n ==> (#[trigger] statements[j]).dependsOn is None
                || statements[j].dependency_ref@ != purl,
        k >= 0 ==> statements[k].dependsOn is Some && statements[k].dependency_ref@ == purl,
    ensures
        k >= 0 ==> stated_before(statements, purl, n) == Some(
            texts(statements[k].dependsOn->0@),
        ),
        k < 0 ==> stated_before(statements, purl, n) is None,
    decreases n,
{
    if n > 0 && k < n - 1 {
        assert(statements[n - 1].dependsOn is None || statements[n - 1].dependency_ref@ != purl);
        lemma_stated_at(statements, purl, k, n - 1);
    }
}

/// What a package depends on directly is what the last statement about it that says
/// anything says; without one it is not known.
pub proof fn law_last_statement_counts(
    bom: CycloneDXBOM,
    statements: Seq<CdxDependency>,
    purl: Seq<char>,
    k: int,
)
    requires
        bom.dependencies matches Some(v) && v@ == statements,
        -1 <= k < statements.len(),
        forall|j: int|
            k < j < statements.len() ==> (#[trigger] statements[j]).dependsOn is None
                || statements[j].dependency_ref@ != purl,
        k >= 0 ==> statements[k].dependsOn is Some && statements[k].dependency_ref@ == purl,
    ensures
        k >= 0 ==> (stated(bom, purl) matches Some(deps) && deps.len()
            == statements[k].dependsOn->0@.len() && forall|j: int|
            0 <= j < deps.len() ==> #[trigger] deps[j] == statements[k].dependsOn->0@[j]@),
        k < 0 ==> stated(bom, purl) is None,
{
    lemma_stated_at(statements, purl, k, statements.len() as int);
}

/// A package is in the tree exactly where a component has its package URL.
pub proof fn law_components_are_in_the_tree(bom: CycloneDXBOM, purl: Seq<char>)
    ensures
        has_component(bom, purl) <==> exists|i: int|
            0 <= i < bom.components@.len() && ((#[trigger] bom.components@[i]).purl matches Some(p)
                && p@ == purl),
{
    if has_component(bom, purl) {
        let i = choose|i: int|
            0 <= i < bom.components@.len() && is_component(#[trigger] bom.components@[i], purl);
        assert(bom.components@[i].purl matches Some(p) && p@ == purl);
    }
    if exists|i: int|
        0 <= i < bom.components@.len() && ((#[trigger] bom.components@[i]).purl matches Some(p)
            && p@ == purl) {
        let i = choose|i: int|
            0 <= i < bom.components@.len() && ((#[trigger] bom.components@[i]).purl matches Some(p)
                && p@ == purl);
        assert(is_component(bom.components@[i], purl));
    }
}

/// A package depends on another exactly where it does directly, or depends on one
/// that does directly; what is to be avoided is never among what it depends on.
pub proof fn law_dependencies_are_reached_step_by_step(
    tree: Tree,
    avoid: Set<Seq<char>>,
    a: Seq<char>,
    c: Seq<char>,
)
    ensures
        depends_on(tree, avoid, a, c) <==> !avoid.contains(c) && (deps_of(tree, a).contains(c)
            || exists|b: Seq<char>| #[trigger]
            depends_on(tree, avoid, a, b) && deps_of(tree, b).contains(c)),
{
    if depends_on(tree, avoid, a, c) {
        let path = choose|path: Seq<Seq<char>>| #[trigger]
            is_path(tree, avoid, path) && path[0] == a && path.last() == c;
        let n = path.len() - 1;
        assert(deps_of(tree, path[n - 1]).contains(path[n]) && !avoid.contains(path[n]));
        if n > 1 {
            let lead = path.take(n);
            assert forall|k: int| 0 < k < lead.len() implies deps_of(tree, lead[k - 1]).contains(
                #[trigger] lead[k],
            ) && !avoid.contains(lead[k]) by {
                assert(lead[k] == path[k] && lead[k - 1] == path[k - 1]);
            }
            assert(is_path(tree, avoid, lead));
            assert(lead[0] == a && lead.last() == path[n - 1]);
            assert(depends_on(tree, avoid, a, path[n - 1]));
        }
    }
    if !avoid.contains(c) && deps_of(tree, a).contains(c) {
        lemma_one_step(tree, avoid, a, c);
    }
    if !avoid.contains(c) && exists|b: Seq<char>| #[trigger]
        depends_on(tree, avoid, a, b) && deps_of(tree, b).contains(c) {
        let b = choose|b: Seq<char>| #[trigger]
            depends_on(tree, avoid, a, b) && deps_of(tree, b).contains(c);
        law_dependencies_are_closed(tree, avoid, a, b, c);
    }
}

/// What a package depends on directly is what the tree has under it.
pub proof fn law_direct_dependencies(tree: Tree, purl: Seq<char>, dep: Seq<char>)
    ensures
        deps_of(tree, purl).contains(dep) <==> tree.contains_key(purl) && (tree[purl] matches Some(
            deps,
        ) && exists|j: int| 0 <= j < deps@.len() && (#[trigger] deps@[j])@ == dep),
{
    if deps_of(tree, purl).contains(dep) {
        let all = deps_of(tree, purl);
        let j = choose|j: int| 0 <= j < all.len() && all[j] == dep;
        assert(tree[purl]->0@[j]@ == dep);
    }
    if tree.contains_key(purl) && (tree[purl] matches Some(deps) && exists|j: int|
        0 <= j < deps@.len() && (#[trigger] deps@[j])@ == dep) {
        let deps = tree[purl]->0;
        let j = choose|j: int| 0 <= j < deps@.len() && (#[trigger] deps@[j])@ == dep;
        assert(deps_of(tree, purl)[j] == dep);
    }
}

} // verus!
