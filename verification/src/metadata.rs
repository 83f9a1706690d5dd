//! Workspace metadata: packages, their dependencies, and what is built of them.

use vstd::prelude::*;
use vstd::string::*;

use crate::collect::DepBuildConfig;
use crate::error::{ElicitDocErrorKind, ErrorKindView};
use crate::features::{collect_available_serde_features, enabled_by, expand_same_package_features};
use crate::features::{feature_views, offers_support};
use crate::inventory::copy_texts;
use crate::order::{ascending, sorted_distinct};
use crate::table::{find_first, find_key, first_where, keyed, lemma_same_keys, position_of};
use crate::text::{join, joined, str_eq, underscored, views, with_underscores};

verus! {

/// A dependency that a package declares.
#[derive(Debug)]
pub struct Dependency {
    pub name: String,
    pub rename: Option<String>,
    pub features: Vec<String>,
    pub uses_default_features: bool,
}

/// A package.
#[derive(Debug)]
pub struct Package {
    pub id: String,
    pub name: String,
    pub manifest_path: String,
    pub dependencies: Vec<Dependency>,
    pub features: Vec<(String, Vec<String>)>,
}

/// A dependency in the resolved graph.
#[derive(Debug)]
pub struct NodeDep {
    pub name: String,
    pub pkg: String,
}

/// A package in the resolved graph.
#[derive(Debug)]
pub struct Node {
    pub id: String,
    pub deps: Vec<NodeDep>,
}

/// What `cargo metadata` reports of a workspace.
#[derive(Debug)]
pub struct WorkspaceMetadata {
    pub packages: Vec<Package>,
    pub resolve: Option<Vec<Node>>,
}

/// The name is the requested one, as it stands or with underscores for hyphens.
pub open spec fn same_name(name: Seq<char>, requested: Seq<char>) -> bool {
    name == requested || underscored(name) == underscored(requested)
}

/// The dependency is the requested crate, by its name or by what it is renamed to.
pub open spec fn dependency_matches(d: Dependency, requested: Seq<char>) -> bool {
    same_name(d.name@, requested) || match d.rename {
        Some(rename) => same_name(rename@, requested),
        None => false,
    }
}

/// The name of a dependency in the resolved graph.
pub open spec fn edge_name(d: Dependency) -> Seq<char> {
    match d.rename {
        Some(rename) => rename@,
        None => d.name@,
    }
}

fn is_same_name(name: &str, requested: &str) -> (r: bool)
    ensures
        r == same_name(name@, requested@),
{
    str_eq(name, requested) || str_eq(
        with_underscores(name).as_str(),
        with_underscores(requested).as_str(),
    )
}

/// Whether a dependency is the requested crate.
pub fn dependency_matches_requested_crate(dependency: &Dependency, crate_name: &str) -> (r: bool)
    ensures
        r == dependency_matches(*dependency, crate_name@),
{
    if is_same_name(dependency.name.as_str(), crate_name) {
        return true;
    }
    match &dependency.rename {
        Some(rename) => is_same_name(rename.as_str(), crate_name),
        None => false,
    }
}

/// The name of a dependency in the resolved graph.
pub fn dependency_edge_name(dependency: &Dependency) -> (r: String)
    ensures
        r@ == edge_name(*dependency),
{
    match &dependency.rename {
        Some(rename) => rename.clone(),
        None => dependency.name.clone(),
    }
}

/// Packages with a name.
pub open spec fn has_name(name: Seq<char>) -> spec_fn(Package) -> bool {
    |x: Package| x.name@ == name
}

/// The first package with a name.
pub open spec fn package_named(s: Seq<Package>, name: Seq<char>) -> Option<Package> {
    first_where(s, has_name(name))
}

fn find_package<'a>(v: &'a Vec<Package>, name: &str) -> (r: Option<&'a Package>)
    ensures
        match r {
            Some(x) => package_named(v@, name@) == Some(*x),
            None => package_named(v@, name@) is None,
        },
{
    let test = |x: &Package| -> (b: bool)
        ensures
            b == (x.name@ == name@),
    {
        str_eq(x.name.as_str(), name)
    };
    find_first(v, test, Ghost(has_name(name@)))
}

/// The first package with a name, hyphens and underscores alike.
pub open spec fn package_like(s: Seq<Package>, name: Seq<char>) -> Option<Package> {
    first_where(s, |x: Package| same_name(x.name@, name))
}

fn find_similar_package<'a>(v: &'a Vec<Package>, name: &str) -> (r: Option<&'a Package>)
    ensures
        match r {
            Some(x) => package_like(v@, name@) == Some(*x),
            None => package_like(v@, name@) is None,
        },
{
    let test = |x: &Package| -> (b: bool)
        ensures
            b == (same_name(x.name@, name@)),
    {
        is_same_name(x.name.as_str(), name)
    };
    find_first(v, test, Ghost(|x: Package| same_name(x.name@, name@)))
}

/// Packages with an id.
pub open spec fn has_id(id: Seq<char>) -> spec_fn(Package) -> bool {
    |x: Package| x.id@ == id
}

/// The first package with an id.
pub open spec fn package_with_id(s: Seq<Package>, id: Seq<char>) -> Option<Package> {
    first_where(s, has_id(id))
}

fn find_package_id<'a>(v: &'a Vec<Package>, id: &str) -> (r: Option<&'a Package>)
    ensures
        match r {
            Some(x) => package_with_id(v@, id@) == Some(*x),
            None => package_with_id(v@, id@) is None,
        },
{
    let test = |x: &Package| -> (b: bool)
        ensures
            b == (x.id@ == id@),
    {
        str_eq(x.id.as_str(), id)
    };
    find_first(v, test, Ghost(has_id(id@)))
}

/// The first dependency that is the requested crate.
pub open spec fn dependency_on(s: Seq<Dependency>, name: Seq<char>) -> Option<Dependency> {
    first_where(s, |x: Dependency| dependency_matches(x, name))
}

fn find_dependency<'a>(v: &'a Vec<Dependency>, name: &str) -> (r: Option<&'a Dependency>)
    ensures
        match r {
            Some(x) => dependency_on(v@, name@) == Some(*x),
            None => dependency_on(v@, name@) is None,
        },
{
    let test = |x: &Dependency| -> (b: bool)
        ensures
            b == (dependency_matches(*x, name@)),
    {
        dependency_matches_requested_crate(x, name)
    };
    find_first(v, test, Ghost(|x: Dependency| dependency_matches(x, name@)))
}

/// Nodes with an id.
pub open spec fn is_node(id: Seq<char>) -> spec_fn(Node) -> bool {
    |x: Node| x.id@ == id
}

/// The first node with an id.
pub open spec fn node_with_id(s: Seq<Node>, id: Seq<char>) -> Option<Node> {
    first_where(s, is_node(id))
}

fn find_node<'a>(v: &'a Vec<Node>, id: &str) -> (r: Option<&'a Node>)
    ensures
        match r {
            Some(x) => node_with_id(v@, id@) == Some(*x),
            None => node_with_id(v@, id@) is None,
        },
{
    let test = |x: &Node| -> (b: bool)
        ensures
            b == (x.id@ == id@),
    {
        str_eq(x.id.as_str(), id)
    };
    find_first(v, test, Ghost(is_node(id@)))
}

/// Edges with a name.
pub open spec fn is_edge(name: Seq<char>) -> spec_fn(NodeDep) -> bool {
    |x: NodeDep| x.name@ == name
}

/// The first edge with a name.
pub open spec fn edge_named(s: Seq<NodeDep>, name: Seq<char>) -> Option<NodeDep> {
    first_where(s, is_edge(name))
}

fn find_edge<'a>(v: &'a Vec<NodeDep>, name: &str) -> (r: Option<&'a NodeDep>)
    ensures
        match r {
            Some(x) => edge_named(v@, name@) == Some(*x),
            None => edge_named(v@, name@) is None,
        },
{
    let test = |x: &NodeDep| -> (b: bool)
        ensures
            b == (x.name@ == name@),
    {
        str_eq(x.name.as_str(), name)
    };
    find_first(v, test, Ghost(is_edge(name@)))
}

fn text3(a: &str, b: &str, c: &str) -> (r: String)
    ensures
        r@ == a@ + b@ + c@,
{
    let mut out = a.to_string();
    out.append(b);
    out.append(c);
    out
}

fn text5(a: &str, b: &str, c: &str, d: &str, e: &str) -> (r: String)
    ensures
        r@ == a@ + b@ + c@ + d@ + e@,
{
    let mut out = text3(a, b, c);
    out.append(d);
    out.append(e);
    out
}

/// The workspace member is not among the packages.
pub open spec fn no_member(member: Seq<char>) -> ErrorKindView {
    ErrorKindView::CargoInvocation(
        "workspace package `"@ + member + "` not found in cargo metadata"@,
    )
}

/// The member does not depend on the requested crate.
pub open spec fn no_dependency(name: Seq<char>, member: Seq<char>) -> ErrorKindView {
    ErrorKindView::CargoInvocation(
        "dependency '"@ + name + "' not found in `"@ + member + "` package metadata"@,
    )
}

/// The dependency that a workspace member declares on a crate.
pub open spec fn member_dependency(m: WorkspaceMetadata, member: Seq<char>, name: Seq<char>) -> Result<
    Dependency,
    ErrorKindView,
> {
    match package_named(m.packages@, member) {
        None => Err(no_member(member)),
        Some(p) => match dependency_on(p.dependencies@, name) {
            None => Err(no_dependency(name, member)),
            Some(d) => Ok(d),
        },
    }
}

/// The manifest of a dependency as a workspace member resolves it.
pub open spec fn dep_manifest(m: WorkspaceMetadata, member: Seq<char>, name: Seq<char>) -> Result<
    Seq<char>,
    ErrorKindView,
> {
    match package_named(m.packages@, member) {
        None => Err(no_member(member)),
        Some(p) => match m.resolve {
            None => Err(
                ErrorKindView::CargoInvocation(
                    "cargo metadata resolve graph missing while locating dependency `"@ + name
                        + "` for `"@ + member + "`"@,
                ),
            ),
            Some(nodes) => match node_with_id(nodes@, p.id@) {
                None => Err(
                    ErrorKindView::CargoInvocation(
                        "resolve node for workspace package `"@ + member + "` not found"@,
                    ),
                ),
                Some(node) => match dependency_on(p.dependencies@, name) {
                    None => Err(no_dependency(name, member)),
                    Some(d) => match edge_named(node.deps@, edge_name(d)) {
                        None => Err(
                            ErrorKindView::CargoInvocation(
                                "resolved dependency edge `"@ + edge_name(d) + "` for `"@ + member
                                    + "` not found while locating `"@ + name + "`"@,
                            ),
                        ),
                        Some(e) => match package_with_id(m.packages@, e.pkg@) {
                            None => Err(
                                ErrorKindView::CargoInvocation(
                                    "resolved package for dependency '"@ + name + "' from `"@
                                        + member + "` not found in cargo metadata"@,
                                ),
                            ),
                            Some(found) => Ok(found.manifest_path@),
                        },
                    },
                },
            },
        },
    }
}

fn missing_member(member: &str) -> (r: ElicitDocErrorKind)
    ensures
        r@ == no_member(member@),
{
    ElicitDocErrorKind::CargoInvocation(
        text3("workspace package `", member, "` not found in cargo metadata"),
    )
}

fn missing_dependency(name: &str, member: &str) -> (r: ElicitDocErrorKind)
    ensures
        r@ == no_dependency(name@, member@),
{
    ElicitDocErrorKind::CargoInvocation(
        text5("dependency '", name, "' not found in `", member, "` package metadata"),
    )
}

/// The manifest of a dependency as a workspace member resolves it.
pub fn find_dep_manifest(meta: &WorkspaceMetadata, member_crate_name: &str, crate_name: &str) -> (r: Result<
    String,
    ElicitDocErrorKind,
>)
    ensures
        match r {
            Ok(path) => dep_manifest(*meta, member_crate_name@, crate_name@) == Ok::<_, ErrorKindView>(path@),
            Err(e) => dep_manifest(*meta, member_crate_name@, crate_name@) == Err::<Seq<char>, _>(e@),
        },
{
    let member = match find_package(&meta.packages, member_crate_name) {
        Some(p) => p,
        None => {
            return Err(missing_member(member_crate_name));
        },
    };
    let nodes = match &meta.resolve {
        Some(nodes) => nodes,
        None => {
            return Err(
                ElicitDocErrorKind::CargoInvocation(
                    text5(
                        "cargo metadata resolve graph missing while locating dependency `",
                        crate_name,
                        "` for `",
                        member_crate_name,
                        "`",
                    ),
                ),
            );
        },
    };
    let node = match find_node(nodes, member.id.as_str()) {
        Some(node) => node,
        None => {
            return Err(
                ElicitDocErrorKind::CargoInvocation(
                    text3("resolve node for workspace package `", member_crate_name, "` not found"),
                ),
            );
        },
    };
    let dependency = match find_dependency(&member.dependencies, crate_name) {
        Some(d) => d,
        None => {
            return Err(missing_dependency(crate_name, member_crate_name));
        },
    };
    let edge_name = dependency_edge_name(dependency);
    let edge = match find_edge(&node.deps, edge_name.as_str()) {
        Some(e) => e,
        None => {
            let mut msg = text5(
                "resolved dependency edge `",
                edge_name.as_str(),
                "` for `",
                member_crate_name,
                "` not found while locating `",
            );
            msg.append(crate_name);
            msg.append("`");
            return Err(ElicitDocErrorKind::CargoInvocation(msg));
        },
    };
    match find_package_id(&meta.packages, edge.pkg.as_str()) {
        Some(p) => Ok(p.manifest_path.clone()),
        None => Err(
            ElicitDocErrorKind::CargoInvocation(
                text5(
                    "resolved package for dependency '",
                    crate_name,
                    "' from `",
                    member_crate_name,
                    "` not found in cargo metadata",
                ),
            ),
        ),
    }
}

/// The configuration states the declared features of a dependency, in order and without
/// duplicates.
pub open spec fn config_of(c: DepBuildConfig, d: Dependency) -> bool {
    ascending(views(c.activated_features@)) && (forall|x: Seq<char>| #[trigger]
        views(c.activated_features@).contains(x) <==> views(d.features@).contains(x))
        && c.uses_default_features == d.uses_default_features
}

/// The features with which a workspace member depends on a crate.
pub fn collect_member_dep_build_config(
    meta: &WorkspaceMetadata,
    member_crate_name: &str,
    crate_name: &str,
) -> (r: Result<DepBuildConfig, ElicitDocErrorKind>)
    ensures
        match (r, member_dependency(*meta, member_crate_name@, crate_name@)) {
            (Ok(c), Ok(d)) => config_of(c, d),
            (Err(e), Err(kind)) => e@ == kind,
            _ => false,
        },
{
    match find_package(&meta.packages, member_crate_name) {
        None => Err(missing_member(member_crate_name)),
        Some(p) => match find_dependency(&p.dependencies, crate_name) {
            None => Err(missing_dependency(crate_name, member_crate_name)),
            Some(d) => Ok(
                DepBuildConfig {
                    activated_features: sorted_distinct(&d.features),
                    uses_default_features: d.uses_default_features,
                },
            ),
        },
    }
}

/// The features with which the `elicitation` crate depends on a crate.
pub fn collect_dep_build_config(meta: &WorkspaceMetadata, crate_name: &str) -> (r: Result<
    DepBuildConfig,
    ElicitDocErrorKind,
>)
    ensures
        match (r, member_dependency(*meta, "elicitation"@, crate_name@)) {
            (Ok(c), Ok(d)) => config_of(c, d),
            (Err(e), Err(kind)) => e@ == kind,
            _ => false,
        },
{
    collect_member_dep_build_config(meta, "elicitation", crate_name)
}

/// The activated features of a package, the default feature among them where it is enabled.
pub open spec fn effective_features(p: Package, activated: Seq<Seq<char>>, uses_default: bool) -> Seq<
    Seq<char>,
> {
    if uses_default && position_of(feature_views(p.features@), "default"@) is Some {
        activated.push("default"@)
    } else {
        activated
    }
}

/// Of a package, the features that can bring serialization or schema support, and those that
/// the activated features enable.
pub fn collect_dep_serde_features(
    meta: &WorkspaceMetadata,
    crate_name: &str,
    activated: &Vec<String>,
    uses_default_features: bool,
) -> (r: Result<(Vec<String>, Vec<String>), ElicitDocErrorKind>)
    ensures
        match (r, package_like(meta.packages@, crate_name@)) {
            (Ok((available, expanded)), Some(p)) => {
                &&& ascending(views(available@))
                &&& forall|x: Seq<char>| #[trigger]
                    views(available@).contains(x) <==> offers_support(feature_views(p.features@), x)
                &&& ascending(views(expanded@))
                &&& forall|x: Seq<char>| #[trigger]
                    views(expanded@).contains(x) <==> enabled_by(
                        feature_views(p.features@),
                        effective_features(p, views(activated@), uses_default_features),
                        x,
                    )
            },
            (Err(e), None) => e@ == ErrorKindView::CargoInvocation(
                "package '"@ + crate_name@ + "' not found in workspace metadata"@,
            ),
            _ => false,
        },
{
    let package = match find_similar_package(&meta.packages, crate_name) {
        Some(p) => p,
        None => {
            return Err(
                ElicitDocErrorKind::CargoInvocation(
                    text3("package '", crate_name, "' not found in workspace metadata"),
                ),
            );
        },
    };
    let available = collect_available_serde_features(&package.features);
    let mut effective = copy_texts(activated);
    proof {
        lemma_same_keys(keyed(package.features@), feature_views(package.features@), "default"@);
    }
    if uses_default_features && find_key(&package.features, "default").is_some() {
        effective.push("default".to_string());
    }
    assert(views(effective@) =~= effective_features(
        *package,
        views(activated@),
        uses_default_features,
    ));
    let expanded = expand_same_package_features(&package.features, &effective);
    Ok((available, expanded))
}

/// The arguments with which every documentation build ends.
pub open spec fn json_arguments(target_dir: Seq<char>) -> Seq<Seq<char>> {
    seq![
        "--target-dir"@,
        target_dir,
        "--"@,
        "--output-format"@,
        "json"@,
        "-Z"@,
        "unstable-options"@,
    ]
}

/// The arguments that enable features, if there are any.
pub open spec fn feature_arguments(features: Seq<Seq<char>>) -> Seq<Seq<char>> {
    if features.len() == 0 {
        seq![]
    } else {
        seq!["--features"@, joined(features, ","@)]
    }
}

fn push_text(out: &mut Vec<String>, t: &str)
    ensures
        views(final(out)@) == views(old(out)@).push(t@),
{
    let ghost held = views(out@);
    out.push(t.to_string());
    assert(views(out@) =~= held.push(t@));
}

fn push_feature_arguments(out: &mut Vec<String>, features: &Vec<String>)
    ensures
        views(final(out)@) == views(old(out)@) + feature_arguments(views(features@)),
{
    if features.len() > 0 {
        push_text(out, "--features");
        push_text(out, join(features, ",").as_str());
    }
}

fn push_json_arguments(out: &mut Vec<String>, target_dir: &str)
    ensures
        views(final(out)@) == views(old(out)@) + json_arguments(target_dir@),
{
    push_text(out, "--target-dir");
    push_text(out, target_dir);
    push_text(out, "--");
    push_text(out, "--output-format");
    push_text(out, "json");
    push_text(out, "-Z");
    push_text(out, "unstable-options");
}

/// The arguments of `cargo` that document a workspace member.
pub fn member_rustdoc_arguments(crate_name: &str, features: &Vec<String>, target_dir: &str) -> (r: Vec<
    String,
>)
    ensures
        views(r@) == seq!["+nightly"@, "rustdoc"@, "-p"@, crate_name@] + feature_arguments(
            views(features@),
        ) + json_arguments(target_dir@),
{
    let mut out: Vec<String> = Vec::new();
    assert(views(out@) =~= seq![]);
    push_text(&mut out, "+nightly");
    push_text(&mut out, "rustdoc");
    push_text(&mut out, "-p");
    push_text(&mut out, crate_name);
    push_feature_arguments(&mut out, features);
    push_json_arguments(&mut out, target_dir);
    out
}

/// The arguments of `cargo` that document a dependency with exactly the given features.
pub open spec fn dep_arguments(
    features: Seq<Seq<char>>,
    uses_default_features: bool,
    target_dir: Seq<char>,
) -> Seq<Seq<char>> {
    seq!["+nightly"@, "rustdoc"@] + (if uses_default_features {
        seq![]
    } else {
        seq!["--no-default-features"@]
    }) + feature_arguments(features) + json_arguments(target_dir)
}

/// The text is one of the flags that choose features.
pub open spec fn is_feature_flag(text: Seq<char>) -> bool {
    text == "--features"@ || text == "--no-default-features"@ || text == "--all-features"@
}

/// A dependency is documented with the given features and no others: `--features` and the list
/// are there exactly where the list is not empty, `--no-default-features` exactly where the
/// default features are off, and `--all-features` never. A list or a directory that reads like
/// one of these flags is left out of account.
pub proof fn law_dep_arguments(
    features: Seq<Seq<char>>,
    uses_default_features: bool,
    target_dir: Seq<char>,
)
    requires
        !is_feature_flag(joined(features, ","@)),
        !is_feature_flag(target_dir),
    ensures
        ({
            let args = dep_arguments(features, uses_default_features, target_dir);
            &&& args.contains("--features"@) <==> features.len() > 0
            &&& args.contains("--no-default-features"@) <==> !uses_default_features
            &&& !args.contains("--all-features"@)
            &&& forall|i: int|
                0 <= i < args.len() && #[trigger] args[i] == "--features"@ ==> i + 1 < args.len()
                    && args[i + 1] == joined(features, ","@)
        }),
{
    reveal_strlit("+nightly");
    reveal_strlit("rustdoc");
    reveal_strlit("--no-default-features");
    reveal_strlit("--features");
    reveal_strlit("--all-features");
    reveal_strlit("--target-dir");
    reveal_strlit("--");
    reveal_strlit("--output-format");
    reveal_strlit("json");
    reveal_strlit("-Z");
    reveal_strlit("unstable-options");
    let args = dep_arguments(features, uses_default_features, target_dir);
    assert("--features"@[2] == 'f' && "--no-default-features"@[2] == 'n' && "--all-features"@[2]
        == 'a' && "--target-dir"@[2] == 't' && "--output-format"@[2] == 'o');
    assert("+nightly"@[0] == '+' && "rustdoc"@[0] == 'r' && "json"@[0] == 'j'
        && "unstable-options"@[0] == 'u' && "-Z"@.len() == 2 && "--"@.len() == 2);
    let at: int = if uses_default_features {
        2
    } else {
        3
    };
    if !uses_default_features {
        assert(args[2] == "--no-default-features"@);
    }
    if features.len() > 0 {
        assert(args[at] == "--features"@);
        assert(args[at + 1] == joined(features, ","@));
    }
    assert forall|i: int| 0 <= i < args.len() && is_feature_flag(#[trigger] args[i]) implies (args[i]
        == "--no-default-features"@ && i == 2 && !uses_default_features) || (args[i]
        == "--features"@ && i == at && features.len() > 0) by {
        let front = if features.len() > 0 {
            at + 2
        } else {
            at
        };
        if i >= front {
            assert(args[i] == json_arguments(target_dir)[i - front]);
        }
    }
}

/// The arguments of `cargo` that document a dependency with exactly the given features.
pub fn dep_rustdoc_arguments(
    activated_features: &Vec<String>,
    uses_default_features: bool,
    target_dir: &str,
) -> (r: Vec<String>)
    ensures
        views(r@) == dep_arguments(views(activated_features@), uses_default_features, target_dir@),
{
    let mut out: Vec<String> = Vec::new();
    assert(views(out@) =~= seq![]);
    push_text(&mut out, "+nightly");
    push_text(&mut out, "rustdoc");
    if !uses_default_features {
        push_text(&mut out, "--no-default-features");
    }
    push_feature_arguments(&mut out, activated_features);
    push_json_arguments(&mut out, target_dir);
    out
}

/// How a dependency is documented: the manifest to run `cargo` beside, and the arguments.
#[derive(Debug)]
pub struct DocsPlan {
    pub manifest_path: String,
    pub arguments: Vec<String>,
}

/// The plan documents a dependency as a workspace member resolves it, with exactly the given
/// features.
pub open spec fn is_docs_plan(
    r: Result<DocsPlan, ElicitDocErrorKind>,
    m: WorkspaceMetadata,
    member: Seq<char>,
    name: Seq<char>,
    features: Seq<Seq<char>>,
    uses_default_features: bool,
    target_dir: Seq<char>,
) -> bool {
    match (r, dep_manifest(m, member, name)) {
        (Ok(plan), Ok(path)) => plan.manifest_path@ == path && views(plan.arguments@)
            == dep_arguments(features, uses_default_features, target_dir),
        (Err(e), Err(kind)) => e@ == kind,
        _ => false,
    }
}

/// How a dependency of a workspace member is documented.
pub fn plan_member_dep_docs(
    meta: &WorkspaceMetadata,
    member_crate_name: &str,
    crate_name: &str,
    activated_features: &Vec<String>,
    uses_default_features: bool,
    target_dir: &str,
) -> (r: Result<DocsPlan, ElicitDocErrorKind>)
    ensures
        is_docs_plan(
            r,
            *meta,
            member_crate_name@,
            crate_name@,
            views(activated_features@),
            uses_default_features,
            target_dir@,
        ),
{
    match find_dep_manifest(meta, member_crate_name, crate_name) {
        Ok(manifest_path) => Ok(
            DocsPlan {
                manifest_path,
                arguments: dep_rustdoc_arguments(
                    activated_features,
                    uses_default_features,
                    target_dir,
                ),
            },
        ),
        Err(e) => Err(e),
    }
}

/// How a dependency of our own crate is documented.
pub fn plan_dep_docs(
    meta: &WorkspaceMetadata,
    crate_name: &str,
    activated_features: &Vec<String>,
    uses_default_features: bool,
    target_dir: &str,
) -> (r: Result<DocsPlan, ElicitDocErrorKind>)
    ensures
        is_docs_plan(
            r,
            *meta,
            "elicitation"@,
            crate_name@,
            views(activated_features@),
            uses_default_features,
            target_dir@,
        ),
{
    plan_member_dep_docs(
        meta,
        "elicitation",
        crate_name,
        activated_features,
        uses_default_features,
        target_dir,
    )
}

/// The name of the file that rustdoc writes for a crate.
pub fn rustdoc_json_name(crate_name: &str) -> (r: String)
    ensures
        r@ == underscored(crate_name@) + ".json"@,
{
    let mut out = with_underscores(crate_name);
    out.append(".json");
    out
}

/// How a run of `cargo rustdoc` ended.
#[derive(Debug)]
pub enum CargoOutcome {
    /// It could not be started, with the reason.
    NotStarted(String),
    /// It ended, with its status as text and whether the JSON file is there.
    Ended { success: bool, status: String, json_exists: bool },
}

/// Why a run of `cargo rustdoc` yielded no JSON file, if it did not.
pub open spec fn outcome_error(o: CargoOutcome, what: Seq<char>, json_path: Seq<char>) -> Option<
    ErrorKindView,
> {
    match o {
        CargoOutcome::NotStarted(reason) => Some(ErrorKindView::CargoInvocation(reason@)),
        CargoOutcome::Ended { success, status, json_exists } => if !success {
            Some(
                ErrorKindView::CargoInvocation(
                    "cargo rustdoc for "@ + what + " exited with "@ + status@,
                ),
            )
        } else if !json_exists {
            Some(ErrorKindView::RustdocOutputMissing(json_path))
        } else {
            None
        },
    }
}

/// Judges a run of `cargo rustdoc` for a workspace member, or for a dependency.
pub fn check_rustdoc_outcome(outcome: &CargoOutcome, crate_name: &str, is_dep: bool, json_path: &str) -> (r: Result<
    (),
    ElicitDocErrorKind,
>)
    ensures
        ({
            let what = if is_dep {
                "dep "@ + crate_name@
            } else {
                crate_name@
            };
            match r {
                Ok(_) => outcome_error(*outcome, what, json_path@) is None,
                Err(e) => outcome_error(*outcome, what, json_path@) == Some(e@),
            }
        }),
{
    match outcome {
        CargoOutcome::NotStarted(reason) => Err(ElicitDocErrorKind::CargoInvocation(reason.clone())),
        CargoOutcome::Ended { success, status, json_exists } => {
            if !*success {
                let mut what = String::new();
                if is_dep {
                    what.append("dep ");
                }
                what.append(crate_name);
                assert(what@ =~= if is_dep {
                    "dep "@ + crate_name@
                } else {
                    crate_name@
                });
                let mut msg = text3("cargo rustdoc for ", what.as_str(), " exited with ");
                msg.append(status.as_str());
                Err(ElicitDocErrorKind::CargoInvocation(msg))
            } else if !*json_exists {
                Err(ElicitDocErrorKind::RustdocOutputMissing(json_path.to_string()))
            } else {
                Ok(())
            }
        },
    }
}

}
