//! How a dependency is found in the metadata of a workspace, and how it is documented.

use vstd::prelude::*;

use crate::collect::DepBuildConfig;
use crate::error::{ElicitDocErrorKind, ErrorKindView};
use crate::features::feature_views;
use crate::laws::basics::{is_key, law_first_where};
use crate::laws::text::law_underscored;
use crate::metadata::{config_of, dep_arguments, dep_manifest, dependency_matches, dependency_on};
use crate::metadata::{edge_name, edge_named, effective_features, has_id, has_name, is_docs_plan};
use crate::metadata::{is_edge, is_node, member_dependency};
use crate::metadata::{node_with_id, outcome_error, package_like, package_named, package_with_id};
use crate::metadata::{same_name, CargoOutcome, Dependency, DocsPlan, Node, NodeDep};
use crate::metadata::{Package, WorkspaceMetadata};
use crate::table::{first_where, lemma_position_of, position_of};
use crate::text::{joined, underscored, views};

verus! {

/// The names are alike: of a length, and equal character by character where a hyphen and an
/// underscore count as one.
pub open spec fn alike(a: Seq<char>, b: Seq<char>) -> bool {
    &&& a.len() == b.len()
    &&& forall|i: int|
        0 <= i < a.len() ==> #[trigger] a[i] == b[i] || ((a[i] == '-' || a[i] == '_') && (b[i] == '-'
            || b[i] == '_'))
}

/// A name is the requested one exactly when they are alike.
pub proof fn law_same_name(a: Seq<char>, b: Seq<char>)
    ensures
        same_name(a, b) <==> alike(a, b),
{
    law_underscored(a);
    law_underscored(b);
    if underscored(a) == underscored(b) {
        assert forall|i: int| 0 <= i < a.len() implies #[trigger] a[i] == b[i] || ((a[i] == '-' || a[i]
            == '_') && (b[i] == '-' || b[i] == '_')) by {
            assert(underscored(a)[i] == underscored(b)[i]);
        }
    }
    if alike(a, b) {
        assert forall|i: int| 0 <= i < a.len() implies underscored(a)[i] == underscored(b)[i] by {
            assert(a[i] == a[i]);
        }
        assert(underscored(a) =~= underscored(b));
    }
}

/// The dependency is on the requested crate, by its name or by what it is renamed to.
pub open spec fn is_on(d: Dependency, name: Seq<char>) -> bool {
    alike(d.name@, name) || match d.rename {
        Some(rename) => alike(rename@, name),
        None => false,
    }
}

/// The package is the first of the name.
pub open spec fn is_package_named(m: WorkspaceMetadata, a: int, name: Seq<char>) -> bool {
    &&& 0 <= a < m.packages@.len()
    &&& m.packages@[a].name@ == name
    &&& forall|j: int| 0 <= j < a ==> (#[trigger] m.packages@[j]).name@ != name
}

/// The package is the first with the id.
pub open spec fn is_package_with_id(m: WorkspaceMetadata, a: int, id: Seq<char>) -> bool {
    &&& 0 <= a < m.packages@.len()
    &&& m.packages@[a].id@ == id
    &&& forall|j: int| 0 <= j < a ==> (#[trigger] m.packages@[j]).id@ != id
}

/// The package is the first of a name like the requested one.
pub open spec fn is_package_like(m: WorkspaceMetadata, a: int, name: Seq<char>) -> bool {
    &&& 0 <= a < m.packages@.len()
    &&& alike(m.packages@[a].name@, name)
    &&& forall|j: int| 0 <= j < a ==> !alike((#[trigger] m.packages@[j]).name@, name)
}

/// The dependency is the first of the package on the requested crate.
pub open spec fn is_dependency_of(p: Package, d: int, name: Seq<char>) -> bool {
    &&& 0 <= d < p.dependencies@.len()
    &&& is_on(p.dependencies@[d], name)
    &&& forall|j: int| 0 <= j < d ==> !is_on(#[trigger] p.dependencies@[j], name)
}

/// The node is the first with the id.
pub open spec fn is_node_of(nodes: Seq<Node>, n: int, id: Seq<char>) -> bool {
    &&& 0 <= n < nodes.len()
    &&& nodes[n].id@ == id
    &&& forall|j: int| 0 <= j < n ==> (#[trigger] nodes[j]).id@ != id
}

/// The edge is the first of the node with the name that the dependency goes by: what it is renamed
/// to, or else its own.
pub open spec fn is_edge_of(node: Node, e: int, d: Dependency) -> bool {
    let name = match d.rename {
        Some(rename) => rename@,
        None => d.name@,
    };
    &&& 0 <= e < node.deps@.len()
    &&& node.deps@[e].name@ == name
    &&& forall|j: int| 0 <= j < e ==> (#[trigger] node.deps@[j]).name@ != name
}

proof fn lemma_package(m: WorkspaceMetadata, name: Seq<char>)
    ensures
        match package_named(m.packages@, name) {
            Some(p) => exists|a: int| #[trigger] is_package_named(m, a, name) && m.packages@[a] == p,
            None => forall|a: int| !(#[trigger] is_package_named(m, a, name)),
        },
{
    let p = has_name(name);
    law_first_where(m.packages@, p);
    match package_named(m.packages@, name) {
        Some(x) => {
            let i = choose|i: int|
                0 <= i < m.packages@.len() && #[trigger] m.packages@[i] == x && p(x) && forall|j: int|
                    0 <= j < i ==> !p(#[trigger] m.packages@[j]);
            assert(is_package_named(m, i, name));
        },
        None => {
            assert forall|a: int| !(#[trigger] is_package_named(m, a, name)) by {
                if 0 <= a < m.packages@.len() {
                    assert(!p(m.packages@[a]));
                }
            }
        },
    }
}

proof fn lemma_package_id(m: WorkspaceMetadata, id: Seq<char>)
    ensures
        match package_with_id(m.packages@, id) {
            Some(p) => exists|a: int| #[trigger] is_package_with_id(m, a, id) && m.packages@[a] == p,
            None => forall|a: int| !(#[trigger] is_package_with_id(m, a, id)),
        },
{
    let p = has_id(id);
    law_first_where(m.packages@, p);
    match package_with_id(m.packages@, id) {
        Some(x) => {
            let i = choose|i: int|
                0 <= i < m.packages@.len() && #[trigger] m.packages@[i] == x && p(x) && forall|j: int|
                    0 <= j < i ==> !p(#[trigger] m.packages@[j]);
            assert(is_package_with_id(m, i, id));
        },
        None => {
            assert forall|a: int| !(#[trigger] is_package_with_id(m, a, id)) by {
                if 0 <= a < m.packages@.len() {
                    assert(!p(m.packages@[a]));
                }
            }
        },
    }
}

/// A package is found under a name like the requested one exactly where there is one, and it is
/// the first.
pub proof fn law_package_like(m: WorkspaceMetadata, name: Seq<char>)
    ensures
        match package_like(m.packages@, name) {
            Some(p) => exists|a: int| #[trigger] is_package_like(m, a, name) && m.packages@[a] == p,
            None => forall|a: int| !(#[trigger] is_package_like(m, a, name)),
        },
{
    let p = |x: Package| same_name(x.name@, name);
    assert forall|x: Package| #[trigger] p(x) == alike(x.name@, name) by {
        law_same_name(x.name@, name);
    }
    law_first_where(m.packages@, p);
    match package_like(m.packages@, name) {
        Some(x) => {
            let i = choose|i: int|
                0 <= i < m.packages@.len() && #[trigger] m.packages@[i] == x && p(x) && forall|j: int|
                    0 <= j < i ==> !p(#[trigger] m.packages@[j]);
            assert forall|j: int| 0 <= j < i implies !alike((#[trigger] m.packages@[j]).name@, name) by {
                assert(!p(m.packages@[j]));
            }
            assert(is_package_like(m, i, name));
        },
        None => {
            assert forall|a: int| !(#[trigger] is_package_like(m, a, name)) by {
                if 0 <= a < m.packages@.len() {
                    assert(!p(m.packages@[a]));
                }
            }
        },
    }
}

proof fn lemma_dependency(k: Package, name: Seq<char>)
    ensures
        match dependency_on(k.dependencies@, name) {
            Some(d) => exists|i: int| #[trigger]
                is_dependency_of(k, i, name) && k.dependencies@[i] == d,
            None => forall|i: int| !(#[trigger] is_dependency_of(k, i, name)),
        },
{
    let p = |x: Dependency| dependency_matches(x, name);
    assert forall|x: Dependency| #[trigger] p(x) == is_on(x, name) by {
        law_same_name(x.name@, name);
        match x.rename {
            Some(rename) => law_same_name(rename@, name),
            None => {},
        }
    }
    law_first_where(k.dependencies@, p);
    match dependency_on(k.dependencies@, name) {
        Some(x) => {
            let i = choose|i: int|
                0 <= i < k.dependencies@.len() && #[trigger] k.dependencies@[i] == x && p(x)
                    && forall|j: int| 0 <= j < i ==> !p(#[trigger] k.dependencies@[j]);
            assert forall|j: int| 0 <= j < i implies !is_on(#[trigger] k.dependencies@[j], name) by {
                assert(!p(k.dependencies@[j]));
            }
            assert(is_dependency_of(k, i, name));
        },
        None => {
            assert forall|i: int| !(#[trigger] is_dependency_of(k, i, name)) by {
                if 0 <= i < k.dependencies@.len() {
                    assert(!p(k.dependencies@[i]));
                }
            }
        },
    }
}

proof fn lemma_node(nodes: Seq<Node>, id: Seq<char>)
    ensures
        match node_with_id(nodes, id) {
            Some(x) => exists|n: int| #[trigger] is_node_of(nodes, n, id) && nodes[n] == x,
            None => forall|n: int| !(#[trigger] is_node_of(nodes, n, id)),
        },
{
    let p = is_node(id);
    law_first_where(nodes, p);
    match node_with_id(nodes, id) {
        Some(x) => {
            let i = choose|i: int|
                0 <= i < nodes.len() && #[trigger] nodes[i] == x && p(x) && forall|j: int|
                    0 <= j < i ==> !p(#[trigger] nodes[j]);
            assert(is_node_of(nodes, i, id));
        },
        None => {
            assert forall|n: int| !(#[trigger] is_node_of(nodes, n, id)) by {
                if 0 <= n < nodes.len() {
                    assert(!p(nodes[n]));
                }
            }
        },
    }
}

proof fn lemma_edge(node: Node, d: Dependency)
    ensures
        match edge_named(node.deps@, edge_name(d)) {
            Some(x) => exists|e: int| #[trigger] is_edge_of(node, e, d) && node.deps@[e] == x,
            None => forall|e: int| !(#[trigger] is_edge_of(node, e, d)),
        },
{
    let name = edge_name(d);
    let p = is_edge(name);
    law_first_where(node.deps@, p);
    match edge_named(node.deps@, name) {
        Some(x) => {
            let i = choose|i: int|
                0 <= i < node.deps@.len() && #[trigger] node.deps@[i] == x && p(x) && forall|j: int|
                    0 <= j < i ==> !p(#[trigger] node.deps@[j]);
            assert(is_edge_of(node, i, d));
        },
        None => {
            assert forall|e: int| !(#[trigger] is_edge_of(node, e, d)) by {
                if 0 <= e < node.deps@.len() {
                    assert(!p(node.deps@[e]));
                }
            }
        },
    }
}

/// A workspace member depends on a crate by the first of its dependencies on it. That it has none
/// is an error, as is a member that is not there.
pub proof fn law_member_dependency(m: WorkspaceMetadata, member: Seq<char>, name: Seq<char>)
    ensures
        (forall|a: int| !(#[trigger] is_package_named(m, a, member))) ==> member_dependency(
            m,
            member,
            name,
        ) == Err::<Dependency, _>(
            ErrorKindView::CargoInvocation(
                "workspace package `"@ + member + "` not found in cargo metadata"@,
            ),
        ),
        forall|a: int| #[trigger]
            is_package_named(m, a, member) ==> match member_dependency(m, member, name) {
                Ok(d) => exists|i: int| #[trigger]
                    is_dependency_of(m.packages@[a], i, name) && m.packages@[a].dependencies@[i] == d,
                Err(e) => (forall|i: int| !(#[trigger] is_dependency_of(m.packages@[a], i, name)))
                    && e == ErrorKindView::CargoInvocation(
                    "dependency '"@ + name + "' not found in `"@ + member + "` package metadata"@,
                ),
            },
{
    lemma_package(m, member);
    assert forall|a: int| #[trigger] is_package_named(m, a, member) implies match member_dependency(
        m,
        member,
        name,
    ) {
        Ok(d) => exists|i: int| #[trigger]
            is_dependency_of(m.packages@[a], i, name) && m.packages@[a].dependencies@[i] == d,
        Err(e) => (forall|i: int| !(#[trigger] is_dependency_of(m.packages@[a], i, name))) && e
            == ErrorKindView::CargoInvocation(
            "dependency '"@ + name + "' not found in `"@ + member + "` package metadata"@,
        ),
    } by {
        lemma_one_package(m, a, member);
        lemma_dependency(m.packages@[a], name);
    }
}

proof fn lemma_one_package(m: WorkspaceMetadata, a: int, name: Seq<char>)
    requires
        is_package_named(m, a, name),
    ensures
        package_named(m.packages@, name) == Some(m.packages@[a]),
{
    lemma_package(m, name);
    let b = choose|b: int| #[trigger]
        is_package_named(m, b, name) && m.packages@[b] == package_named(m.packages@, name)->0;
    if a < b {
        assert(m.packages@[a].name@ != name);
    }
    if b < a {
        assert(m.packages@[b].name@ != name);
    }
}

/// The way from a workspace member to the package of a dependency: the member, its node, the
/// dependency, its edge, and the package that the edge leads to.
pub open spec fn is_way(
    m: WorkspaceMetadata,
    member: Seq<char>,
    name: Seq<char>,
    a: int,
    n: int,
    d: int,
    e: int,
    b: int,
) -> bool {
    &&& is_package_named(m, a, member)
    &&& match m.resolve {
        Some(nodes) => {
            &&& is_node_of(nodes@, n, m.packages@[a].id@)
            &&& is_dependency_of(m.packages@[a], d, name)
            &&& is_edge_of(nodes@[n], e, m.packages@[a].dependencies@[d])
            &&& is_package_with_id(m, b, nodes@[n].deps@[e].pkg@)
        },
        None => false,
    }
}

/// The manifest of a dependency is that of the package to which the resolved graph leads from the
/// member. Where no way leads to one, an error says which step is missing.
pub proof fn law_dependency_manifest(m: WorkspaceMetadata, member: Seq<char>, name: Seq<char>)
    ensures
        dep_manifest(m, member, name) matches Ok(path) ==> exists|
            a: int,
            n: int,
            d: int,
            e: int,
            b: int,
        | #[trigger]
            is_way(m, member, name, a, n, d, e, b) && m.packages@[b].manifest_path@ == path,
        forall|a: int, n: int, d: int, e: int, b: int| #[trigger]
            is_way(m, member, name, a, n, d, e, b) ==> dep_manifest(m, member, name) is Ok,
        (forall|a: int| !(#[trigger] is_package_named(m, a, member))) ==> dep_manifest(
            m,
            member,
            name,
        ) == Err::<Seq<char>, _>(
            ErrorKindView::CargoInvocation(
                "workspace package `"@ + member + "` not found in cargo metadata"@,
            ),
        ),
        forall|a: int|
            m.resolve is None && #[trigger] is_package_named(m, a, member) ==> dep_manifest(
                m,
                member,
                name,
            ) == Err::<Seq<char>, _>(
                ErrorKindView::CargoInvocation(
                    "cargo metadata resolve graph missing while locating dependency `"@ + name
                        + "` for `"@ + member + "`"@,
                ),
            ),
{
    lemma_package(m, member);
    match package_named(m.packages@, member) {
        Some(p) => {
            let a = choose|a: int| #[trigger] is_package_named(m, a, member) && m.packages@[a] == p;
            match m.resolve {
                Some(nodes) => {
                    lemma_node(nodes@, p.id@);
                    lemma_dependency(p, name);
                    assert forall|a1: int, n1: int, d1: int, e1: int, b1: int| #[trigger]
                        is_way(m, member, name, a1, n1, d1, e1, b1) implies dep_manifest(
                        m,
                        member,
                        name,
                    ) is Ok by {
                        lemma_one_package(m, a1, member);
                        assert(is_node_of(nodes@, n1, p.id@));
                        let n = choose|n: int| #[trigger]
                            is_node_of(nodes@, n, p.id@) && nodes@[n] == node_with_id(
                                nodes@,
                                p.id@,
                            )->0;
                        if n < n1 {
                            assert(nodes@[n].id@ != p.id@);
                        }
                        if n1 < n {
                            assert(nodes@[n1].id@ != p.id@);
                        }
                        assert(is_dependency_of(p, d1, name));
                        let d = choose|d: int| #[trigger]
                            is_dependency_of(p, d, name) && p.dependencies@[d] == dependency_on(
                                p.dependencies@,
                                name,
                            )->0;
                        if d < d1 {
                            assert(!is_on(p.dependencies@[d], name));
                        }
                        if d1 < d {
                            assert(!is_on(p.dependencies@[d1], name));
                        }
                        let node = nodes@[n1];
                        let dep = p.dependencies@[d1];
                        lemma_edge(node, dep);
                        assert(is_edge_of(node, e1, dep));
                        let e = choose|e: int| #[trigger]
                            is_edge_of(node, e, dep) && node.deps@[e] == edge_named(
                                node.deps@,
                                edge_name(dep),
                            )->0;
                        if e < e1 {
                            assert(node.deps@[e].name@ != edge_name(dep));
                        }
                        if e1 < e {
                            assert(node.deps@[e1].name@ != edge_name(dep));
                        }
                        lemma_package_id(m, node.deps@[e1].pkg@);
                        assert(is_package_with_id(m, b1, node.deps@[e1].pkg@));
                    }
                    if dep_manifest(m, member, name) is Ok {
                        let node = node_with_id(nodes@, p.id@)->0;
                        let n = choose|n: int| #[trigger]
                            is_node_of(nodes@, n, p.id@) && nodes@[n] == node;
                        let dep = dependency_on(p.dependencies@, name)->0;
                        let d = choose|d: int| #[trigger]
                            is_dependency_of(p, d, name) && p.dependencies@[d] == dep;
                        lemma_edge(node, dep);
                        let edge = edge_named(node.deps@, edge_name(dep))->0;
                        let e = choose|e: int| #[trigger]
                            is_edge_of(node, e, dep) && node.deps@[e] == edge;
                        lemma_package_id(m, edge.pkg@);
                        let b = choose|b: int| #[trigger]
                            is_package_with_id(m, b, edge.pkg@) && m.packages@[b]
                                == package_with_id(m.packages@, edge.pkg@)->0;
                        assert(is_way(m, member, name, a, n, d, e, b));
                    }
                },
                None => {},
            }
        },
        None => {},
    }
}

/// A configuration has the features that the dependency declares, and its default features exactly
/// where the dependency uses them.
pub proof fn law_build_config(c: DepBuildConfig, d: Dependency, x: Seq<char>)
    requires
        config_of(c, d),
    ensures
        views(c.activated_features@).contains(x) <==> views(d.features@).contains(x),
        c.uses_default_features <==> d.uses_default_features,
        crate::order::ascending(views(c.activated_features@)),
{
}

/// The features that are in effect are the activated ones, and the default one exactly where it is
/// used and the package has it.
pub proof fn law_effective_features(
    p: Package,
    activated: Seq<Seq<char>>,
    uses_default: bool,
    x: Seq<char>,
)
    ensures
        effective_features(p, activated, uses_default).contains(x) <==> activated.contains(x) || (x
            == "default"@ && uses_default && exists|i: int|
            0 <= i < p.features@.len() && (#[trigger] p.features@[i]).0@ == "default"@),
{
    let fs = feature_views(p.features@);
    lemma_position_of(fs, "default"@);
    assert(fs.len() == p.features@.len());
    assert forall|i: int| 0 <= i < fs.len() implies (#[trigger] fs[i]).0 == p.features@[i].0@ by {}
    match position_of(fs, "default"@) {
        Some(i) => {
            assert(p.features@[i].0@ == "default"@);
        },
        None => {
            assert forall|i: int| 0 <= i < p.features@.len() implies (#[trigger] p.features@[i]).0@
                != "default"@ by {
                assert(fs[i].0 == p.features@[i].0@);
            }
        },
    }
    let all = activated.push("default"@);
    assert(all[activated.len() as int] == "default"@);
    if activated.contains(x) {
        let i = choose|i: int| 0 <= i < activated.len() && activated[i] == x;
        assert(all[i] == x);
    }
    if all.contains(x) {
        let i = choose|i: int| 0 <= i < all.len() && all[i] == x;
        if i < activated.len() {
            assert(activated[i] == x);
        }
    }
}

/// A plan is made exactly where the manifest is found. It has that manifest, and its arguments
/// run the nightly rustdoc, switch the default features off where they are not used, name the
/// features where there are any, and ask for JSON in the target directory.
pub proof fn law_docs_plan(
    r: Result<DocsPlan, ElicitDocErrorKind>,
    m: WorkspaceMetadata,
    member: Seq<char>,
    name: Seq<char>,
    features: Seq<Seq<char>>,
    uses_default_features: bool,
    target_dir: Seq<char>,
)
    requires
        is_docs_plan(r, m, member, name, features, uses_default_features, target_dir),
    ensures
        r is Ok <==> dep_manifest(m, member, name) is Ok,
        r matches Err(e) ==> dep_manifest(m, member, name) == Err::<Seq<char>, _>(e@),
        r matches Ok(plan) ==> {
            let args = views(plan.arguments@);
            let off: int = if uses_default_features {
                0
            } else {
                1
            };
            let on: int = if features.len() == 0 {
                0
            } else {
                2
            };
            &&& dep_manifest(m, member, name) == Ok::<_, ErrorKindView>(plan.manifest_path@)
            &&& args.len() == 9 + off + on
            &&& args[0] == "+nightly"@
            &&& args[1] == "rustdoc"@
            &&& !uses_default_features ==> args[2] == "--no-default-features"@
            &&& features.len() > 0 ==> args[2 + off] == "--features"@ && args[3 + off] == joined(
                features,
                ","@,
            )
            &&& args.skip(2 + off + on) == seq![
                "--target-dir"@,
                target_dir,
                "--"@,
                "--output-format"@,
                "json"@,
                "-Z"@,
                "unstable-options"@,
            ]
        },
{
    let args = dep_arguments(features, uses_default_features, target_dir);
    let off: int = if uses_default_features {
        0
    } else {
        1
    };
    let on: int = if features.len() == 0 {
        0
    } else {
        2
    };
    assert(args.skip(2 + off + on) =~= seq![
        "--target-dir"@,
        target_dir,
        "--"@,
        "--output-format"@,
        "json"@,
        "-Z"@,
        "unstable-options"@,
    ]);
}

/// A run has yielded documentation exactly when it was started, succeeded and left the file. What
/// went wrong first is the error.
pub proof fn law_run_outcome(o: CargoOutcome, what: Seq<char>, json_path: Seq<char>)
    ensures
        outcome_error(o, what, json_path) is None <==> match o {
            CargoOutcome::Ended { success, json_exists, .. } => success && json_exists,
            CargoOutcome::NotStarted(_) => false,
        },
        o matches CargoOutcome::NotStarted(reason) ==> outcome_error(o, what, json_path) == Some(
            ErrorKindView::CargoInvocation(reason@),
        ),
        o matches CargoOutcome::Ended { success: false, status, .. } ==> outcome_error(
            o,
            what,
            json_path,
        ) == Some(
            ErrorKindView::CargoInvocation(
                "cargo rustdoc for "@ + what + " exited with "@ + status@,
            ),
        ),
        o matches CargoOutcome::Ended { success: true, json_exists: false, .. } ==> outcome_error(
            o,
            what,
            json_path,
        ) == Some(ErrorKindView::RustdocOutputMissing(json_path)),
{
}

}
