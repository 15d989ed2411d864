//! The build orchestration pipeline. Phases run in order: the confinement
//! check, the judgement of entry-discovery diagnostics, client-reference
//! deduplication, the three chunk computations feeding the shared emission
//! set, manifest assembly, and asset-graph emission. A fatal diagnostic
//! during discovery aborts before any manifest write is produced; the
//! pending writes come out as one list for the host to perform, and the
//! build's completion is the join of all of them.

use vstd::prelude::*;
use vstd::string::*;
use crate::asset_graph::{AssetGraph, FileWrite, WriteView};
use crate::client_reference::{ChunkingContext, ClientReferenceType};
use crate::diagnostics::{BuildError, Issue, IssueSeverity};
use crate::manifests::{str_views, PagesMapView, PathsMapView};

verus! {

/// Legacy build context: the caller-supplied build id and the route
/// rewrites, already encoded.
#[derive(Debug, Clone)]
pub struct BuildContext {
    pub build_id: String,
    pub rewrites: String,
}

/// How a build is run: the chroot root, the project inside it, the two
/// output roots, and the optional legacy context.
#[derive(Debug, Clone)]
pub struct BuildOptions {
    /// The workspace root every path must stay under.
    pub workspace_root: String,
    /// The project directory, which must be nested under the root.
    pub project_root: String,
    /// The node/server output root.
    pub node_root: String,
    /// The client output root.
    pub client_root: String,
    /// The legacy build-id/rewrite context, when supplied.
    pub build_context: Option<BuildContext>,
}

/// One resolved page entry, as entry discovery and the substrate settled it.
#[derive(Debug, Clone)]
pub struct PageBuildEntry {
    pub pathname: String,
    pub ssr_module: u64,
    pub client_module: u64,
}

/// One resolved app entry.
#[derive(Debug, Clone)]
pub struct AppBuildEntry {
    pub pathname: String,
    pub rsc_entry: u64,
}

/// Everything one build invocation works from: the options, the diagnostics
/// the two discovery steps collected, the resolved entries, the client
/// references reachable from the server entries (possibly repeated), the
/// three settled chunking capabilities, and the output-asset graph.
#[derive(Debug)]
pub struct BuildInputs {
    pub options: BuildOptions,
    pub page_entry_issues: Vec<Issue>,
    pub app_entry_issues: Vec<Issue>,
    pub page_entries: Vec<PageBuildEntry>,
    pub app_entries: Vec<AppBuildEntry>,
    pub client_references: Vec<ClientReferenceType>,
    pub client_chunking: ChunkingContext,
    pub ssr_chunking: ChunkingContext,
    pub rsc_chunking: ChunkingContext,
    pub asset_graph: AssetGraph,
}

/// What a successful build hands the host: the pending writes, in order,
/// and the deduplicated asset set the traversal collected.
#[derive(Debug)]
pub struct BuildOutput {
    pub writes: Vec<FileWrite>,
    pub emitted_assets: Vec<u64>,
}

// ---------------------------------------------------------------------------
// The shape of a finished build, at the ghost level.
// ---------------------------------------------------------------------------

pub open spec fn issue_views(s: Seq<Issue>) -> Seq<(IssueSeverity, Seq<char>)> {
    s.map_values(|x: Issue| (x.severity, x.message@))
}

pub open spec fn err_issue_views(e: BuildError) -> Option<Seq<(IssueSeverity, Seq<char>)>> {
    match e {
        BuildError::FatalDiagnostic { issues } => Some(issue_views(issues@)),
        _ => None,
    }
}

pub open spec fn group_assets_known(g: AssetGraph, ids: Seq<u64>) -> bool {
    forall|k: int| 0 <= k < ids.len() ==> g.spec_has_asset(#[trigger] ids[k])
}

/// The pages manifest a build assembles: each page entry's pathname mapped
/// to the paths of its SSR chunk group.
pub open spec fn spec_pages_manifest_pages(i: BuildInputs) -> PagesMapView {
    i.page_entries@.map_values(
        |e: PageBuildEntry|
            (
                e.pathname@,
                crate::next_build::spec_paths_of(
                    i.asset_graph,
                    i.ssr_chunking.spec_group(e.ssr_module),
                ),
            ),
    )
}

/// The build manifest's page table: each page's client chunk group paths.
pub open spec fn spec_build_manifest_pages(i: BuildInputs) -> PagesMapView {
    i.page_entries@.map_values(
        |e: PageBuildEntry|
            (
                e.pathname@,
                crate::next_build::spec_paths_of(
                    i.asset_graph,
                    i.client_chunking.spec_group(e.client_module),
                ),
            ),
    )
}

/// The app build manifest's table: each app route's RSC chunk group paths.
pub open spec fn spec_app_build_pages(i: BuildInputs) -> PagesMapView {
    i.app_entries@.map_values(
        |e: AppBuildEntry|
            (
                e.pathname@,
                crate::next_build::spec_paths_of(
                    i.asset_graph,
                    i.rsc_chunking.spec_group(e.rsc_entry),
                ),
            ),
    )
}

/// The app paths manifest's table: each app route's server entry path — the
/// first chunk of its RSC group.
pub open spec fn spec_app_paths_map(i: BuildInputs) -> PathsMapView {
    i.app_entries@.map_values(
        |e: AppBuildEntry|
            (
                e.pathname@,
                i.asset_graph.spec_asset(i.rsc_chunking.spec_group(e.rsc_entry)[0]).path,
            ),
    )
}

pub open spec fn spec_pages_keys(i: BuildInputs) -> Seq<Seq<char>> {
    spec_pages_manifest_pages(i).map_values(|p: (Seq<char>, Seq<Seq<char>>)| p.0)
}

pub open spec fn spec_ssg_rel(id: Seq<char>) -> Seq<char> {
    "static/"@ + id + "/_ssgManifest.js"@
}

pub open spec fn spec_cm_rel(id: Seq<char>) -> Seq<char> {
    "static/"@ + id + "/_buildManifest.js"@
}

pub open spec fn spec_under(root: Seq<char>, rel: Seq<char>) -> Seq<char> {
    root + seq!['/'] + rel
}

/// A manifest document's file name: its stem behind the JSON extension.
pub open spec fn json_file(stem: Seq<char>) -> Seq<char> {
    stem + ".json"@
}

/// The low-priority client files: the two legacy snippets, in write order,
/// when a legacy context is supplied.
pub open spec fn spec_low_priority(i: BuildInputs) -> Seq<Seq<char>> {
    match i.options.build_context {
        Some(c) => seq![spec_ssg_rel(c.build_id@), spec_cm_rel(c.build_id@)],
        None => Seq::<Seq<char>>::empty(),
    }
}

/// The sorted-route client manifest's page table: each sorted page except
/// `/_app`, mapped to its dependencies with those already satisfied by
/// `/_app` removed; pages left with no dependency are omitted.
pub open spec fn spec_client_pages_assembled(
    pages_m: PagesMapView,
    app_deps: Seq<Seq<char>>,
    sv: Seq<Seq<char>>,
) -> PagesMapView
    decreases sv.len(),
{
    if sv.len() == 0 {
        Seq::<(Seq<char>, Seq<Seq<char>>)>::empty()
    } else {
        let prefix = spec_client_pages_assembled(pages_m, app_deps, sv.drop_last());
        let page = sv.last();
        if page == "/_app"@ {
            prefix
        } else {
            let deps = crate::next_build::spec_filtered_deps(
                crate::next_build::spec_lookup_list(pages_m, page),
                app_deps,
            );
            if deps.len() == 0 {
                prefix
            } else {
                prefix.push((page, deps))
            }
        }
    }
}

/// The two legacy snippet writes, in order: the SSG manifest, then the
/// client build manifest for the sorted pages `sv`.
pub open spec fn spec_legacy_writes(i: BuildInputs, sv: Seq<Seq<char>>) -> Seq<WriteView> {
    match i.options.build_context {
        Some(c) => {
            let pm = spec_pages_manifest_pages(i);
            let app_deps = crate::next_build::spec_lookup_list(pm, "/_app"@);
            seq![
                WriteView {
                    path: spec_under(i.options.node_root@, spec_ssg_rel(c.build_id@)),
                    content:
                        "self.__SSG_MANIFEST=new Set;self.__SSG_MANIFEST_CB&&self.__SSG_MANIFEST_CB()"@,
                },
                WriteView {
                    path: spec_under(i.options.node_root@, spec_cm_rel(c.build_id@)),
                    content: crate::manifests::spec_client_manifest_snippet(
                        crate::manifests::spec_client_build_manifest_json(
                            c.rewrites@,
                            sv,
                            spec_client_pages_assembled(pm, app_deps, sv),
                        ),
                    ),
                },
            ]
        },
        None => Seq::<WriteView>::empty(),
    }
}

/// The manifest document writes, in order.
pub open spec fn spec_doc_writes(i: BuildInputs) -> Seq<WriteView> {
    let node = i.options.node_root@;
    let client = i.options.client_root@;
    seq![
        WriteView {
            path: spec_under(node, json_file("server/pages-manifest"@)),
            content: crate::manifests::spec_pages_manifest_json(spec_pages_manifest_pages(i)),
        },
        WriteView {
            path: spec_under(client, json_file("app-build-manifest"@)),
            content: crate::manifests::spec_pages_manifest_json(spec_app_build_pages(i)),
        },
        WriteView {
            path: spec_under(node, json_file("server/app-paths-manifest"@)),
            content: crate::manifests::spec_app_paths_manifest_json(spec_app_paths_map(i)),
        },
        WriteView {
            path: spec_under(client, json_file("build-manifest"@)),
            content: crate::manifests::spec_build_manifest_json(
                spec_build_manifest_pages(i),
                spec_low_priority(i),
            ),
        },
        WriteView {
            path: spec_under(node, json_file("server/middleware-manifest"@)),
            content:
                "{\"sortedMiddleware\":[],\"middleware\":{},\"functions\":{},\"version\":2}"@,
        },
        WriteView {
            path: spec_under(node, json_file("server/next-font-manifest"@)),
            content: "{}"@,
        },
        WriteView { path: spec_under(node, json_file("server/font-manifest"@)), content: "{}"@ },
        WriteView {
            path: spec_under(node, json_file("server/server-reference-manifest"@)),
            content: "{}"@,
        },
        WriteView { path: spec_under(node, json_file("react-loadable-manifest"@)), content: "{}"@ },
    ]
}

pub open spec fn spec_fixed_writes(i: BuildInputs, sv: Seq<Seq<char>>) -> Seq<WriteView> {
    spec_legacy_writes(i, sv) + spec_doc_writes(i)
}

pub open spec fn sorted_views(sv: Seq<Seq<char>>) -> bool {
    forall|a: int, b: int|
        0 <= a <= b < sv.len() ==> crate::sorted_routes::lex_le(sv[a], sv[b])
}

/// What a successful build's output is: the fixed manifest writes — with
/// the legacy snippets over some sorted arrangement `sv` of the page
/// pathnames — followed by the asset writes of the deduplicated traversal.
pub open spec fn build_output_matches(i: BuildInputs, out: BuildOutput, sv: Seq<Seq<char>>) -> bool {
    &&& (i.options.build_context is Some ==> {
        &&& sorted_views(sv)
        &&& sv.len() == i.page_entries@.len()
        &&& forall|x: Seq<char>| #[trigger] sv.contains(x) <==> spec_pages_keys(i).contains(x)
    })
    &&& crate::asset_graph::write_views(out.writes@) == spec_fixed_writes(i, sv)
        + crate::asset_graph::spec_asset_writes(
        i.asset_graph,
        out.emitted_assets@,
        i.options.node_root@,
        i.options.client_root@ + "/_next"@,
        i.options.client_root@,
    )
    &&& out.emitted_assets@.no_duplicates()
}

/// String equality at character level.
pub fn str_eq(a: &str, b: &str) -> (r: bool)
    ensures
        r == (a@ == b@),
{
    let an = a.unicode_len();
    let bn = b.unicode_len();
    if an != bn {
        proof {
            assert(a@ != b@) by {
                if a@ == b@ {
                    assert(a@.len() == b@.len());
                }
            }
        }
        return false;
    }
    let mut i: usize = 0;
    while i < an
        invariant
            i <= an,
            an == a@.len(),
            an == b@.len(),
            forall|j: int| 0 <= j < i ==> a@[j] == b@[j],
        decreases an - i,
    {
        if a.get_char(i) != b.get_char(i) {
            proof {
                assert(a@ != b@) by {
                    if a@ == b@ {
                        assert(a@[i as int] == b@[i as int]);
                    }
                }
            }
            return false;
        }
        i += 1;
    }
    proof {
        assert(a@ =~= b@);
    }
    true
}

/// Whether some string of `v` has exactly the characters of `x`.
pub fn contains_str(v: &Vec<String>, x: &str) -> (r: bool)
    ensures
        r == str_views(v@).contains(x@),
{
    let mut i: usize = 0;
    while i < v.len()
        invariant
            i <= v@.len(),
            forall|j: int| 0 <= j < i ==> (#[trigger] v@[j])@ != x@,
        decreases v@.len() - i,
    {
        if str_eq(v[i].as_str(), x) {
            proof {
                assert(str_views(v@)[i as int] == x@);
            }
            return true;
        }
        i += 1;
    }
    proof {
        if str_views(v@).contains(x@) {
            let j = choose|j: int| 0 <= j < str_views(v@).len() && str_views(v@)[j] == x@;
            assert(v@[j]@ == x@);
        }
    }
    false
}

/// A fresh list with the same strings.
pub fn clone_strs(v: &Vec<String>) -> (r: Vec<String>)
    ensures
        r@.len() == v@.len(),
        forall|i: int| 0 <= i < v@.len() ==> (#[trigger] r@[i])@ == v@[i]@,
{
    let mut out: Vec<String> = Vec::new();
    let mut i: usize = 0;
    while i < v.len()
        invariant
            i <= v@.len(),
            out@.len() == i,
            forall|j: int| 0 <= j < i ==> (#[trigger] out@[j])@ == v@[j]@,
        decreases v@.len() - i,
    {
        out.push(v[i].clone());
        i += 1;
    }
    out
}

/// First-match lookup of a key's list in an ordered string-list map; empty
/// when the key is absent.
pub open spec fn spec_lookup_list(m: PagesMapView, k: Seq<char>) -> Seq<Seq<char>>
    decreases m.len(),
{
    if m.len() == 0 {
        Seq::<Seq<char>>::empty()
    } else if m[0].0 == k {
        m[0].1
    } else {
        spec_lookup_list(m.subrange(1, m.len() as int), k)
    }
}

pub fn lookup_list(pages: &Vec<(String, Vec<String>)>, k: &str) -> (r: Vec<String>)
    ensures
        str_views(r@) == spec_lookup_list(crate::manifests::pages_map_view(pages@), k@),
{
    proof {
        assert(crate::manifests::pages_map_view(pages@).subrange(
            0,
            pages@.len() as int,
        ) =~= crate::manifests::pages_map_view(pages@));
    }
    let mut i: usize = 0;
    while i < pages.len()
        invariant
            i <= pages@.len(),
            forall|j: int| 0 <= j < i ==> (#[trigger] pages@[j]).0@ != k@,
            spec_lookup_list(
                crate::manifests::pages_map_view(pages@).subrange(i as int, pages@.len() as int),
                k@,
            ) == spec_lookup_list(crate::manifests::pages_map_view(pages@), k@),
        decreases pages@.len() - i,
    {
        proof {
            let m = crate::manifests::pages_map_view(pages@);
            let sub = m.subrange(i as int, m.len() as int);
            assert(sub[0] == m[i as int]);
            assert(sub.subrange(1, sub.len() as int) =~= m.subrange(i + 1, m.len() as int));
        }
        if str_eq(pages[i].0.as_str(), k) {
            let r = clone_strs(&pages[i].1);
            proof {
                assert(str_views(r@) =~= str_views(pages@[i as int].1@));
            }
            return r;
        }
        i += 1;
    }
    proof {
        let m = crate::manifests::pages_map_view(pages@);
        if m.len() > 0 {
            assert(m.subrange(pages@.len() as int, pages@.len() as int).len() == 0);
        }
        assert(spec_lookup_list(m, k@) == Seq::<Seq<char>>::empty());
        assert(str_views(Seq::<String>::empty()) =~= Seq::<Seq<char>>::empty());
    }
    Vec::new()
}

/// `deps` with every entry of `bad` removed, keeping order.
pub open spec fn spec_filtered_deps(deps: Seq<Seq<char>>, bad: Seq<Seq<char>>) -> Seq<Seq<char>>
    decreases deps.len(),
{
    if deps.len() == 0 {
        Seq::<Seq<char>>::empty()
    } else {
        spec_filtered_deps(deps.drop_last(), bad) + (if bad.contains(deps.last()) {
            Seq::<Seq<char>>::empty()
        } else {
            seq![deps.last()]
        })
    }
}

pub fn filtered_deps(deps: &Vec<String>, bad: &Vec<String>) -> (r: Vec<String>)
    ensures
        str_views(r@) == spec_filtered_deps(str_views(deps@), str_views(bad@)),
{
    let mut out: Vec<String> = Vec::new();
    let mut i: usize = 0;
    proof {
        assert(str_views(deps@).subrange(0, 0) =~= Seq::<Seq<char>>::empty());
        assert(spec_filtered_deps(Seq::<Seq<char>>::empty(), str_views(bad@))
            == Seq::<Seq<char>>::empty());
        assert(str_views(out@) =~= Seq::<Seq<char>>::empty());
    }
    while i < deps.len()
        invariant
            i <= deps@.len(),
            str_views(out@) == spec_filtered_deps(
                str_views(deps@).subrange(0, i as int),
                str_views(bad@),
            ),
        decreases deps@.len() - i,
    {
        let ghost out_pre = out@;
        let keep = !contains_str(bad, deps[i].as_str());
        if keep {
            out.push(deps[i].clone());
        }
        proof {
            let dv = str_views(deps@);
            let sub2 = dv.subrange(0, (i + 1) as int);
            assert(sub2.drop_last() =~= dv.subrange(0, i as int));
            assert(sub2.last() == deps@[i as int]@);
            if keep {
                assert(str_views(out@) =~= str_views(out_pre).push(deps@[i as int]@));
                assert(spec_filtered_deps(sub2, str_views(bad@)) =~= spec_filtered_deps(
                    dv.subrange(0, i as int),
                    str_views(bad@),
                ).push(deps@[i as int]@));
            } else {
                assert(spec_filtered_deps(sub2, str_views(bad@)) =~= spec_filtered_deps(
                    dv.subrange(0, i as int),
                    str_views(bad@),
                ));
            }
            assert(str_views(out@) =~= spec_filtered_deps(sub2, str_views(bad@)));
        }
        i += 1;
    }
    proof {
        assert(str_views(deps@).subrange(0, deps@.len() as int) =~= str_views(deps@));
    }
    out
}

/// The paths of the assets named by `ids`, in order.
pub open spec fn spec_paths_of(g: AssetGraph, ids: Seq<u64>) -> Seq<Seq<char>> {
    ids.map_values(|id: u64| g.spec_asset(id).path)
}

pub fn asset_paths(graph: &AssetGraph, ids: &Vec<u64>) -> (r: Vec<String>)
    requires
        forall|i: int| 0 <= i < ids@.len() ==> graph.spec_has_asset(#[trigger] ids@[i]),
    ensures
        str_views(r@) == spec_paths_of(*graph, ids@),
{
    let mut out: Vec<String> = Vec::new();
    let mut i: usize = 0;
    while i < ids.len()
        invariant
            i <= ids@.len(),
            forall|j: int| 0 <= j < ids@.len() ==> graph.spec_has_asset(#[trigger] ids@[j]),
            out@.len() == i,
            forall|j: int| 0 <= j < i ==> (#[trigger] out@[j])@ == graph.spec_asset(ids@[j]).path,
        decreases ids@.len() - i,
    {
        match graph.get_asset(ids[i]) {
            Some(a) => {
                out.push(crate::asset_graph::clone_text(&a.path));
            },
            None => {
                proof {
                    assert(false);
                }
            },
        }
        i += 1;
    }
    proof {
        assert(str_views(out@) =~= spec_paths_of(*graph, ids@));
    }
    out
}

fn path_under(root: &str, rel: &str) -> (r: String)
    ensures
        r@ == spec_under(root@, rel@),
{
    proof {
        reveal_strlit("/");
        assert("/"@ =~= seq!['/']);
    }
    let a = crate::paths::join2(root, "/");
    crate::paths::join2(a.as_str(), rel)
}

fn manifest_file(stem: &str) -> (r: String)
    ensures
        r@ == json_file(stem@),
{
    crate::paths::join2(stem, ".json")
}

fn clone_issues(v: &Vec<Issue>) -> (r: Vec<Issue>)
    ensures
        r@.len() == v@.len(),
        forall|i: int|
            0 <= i < v@.len() ==> (#[trigger] r@[i]).severity == v@[i].severity
                && r@[i].message@ == v@[i].message@,
{
    let mut out: Vec<Issue> = Vec::new();
    let mut i: usize = 0;
    while i < v.len()
        invariant
            i <= v@.len(),
            out@.len() == i,
            forall|j: int|
                0 <= j < i ==> (#[trigger] out@[j]).severity == v@[j].severity
                    && out@[j].message@ == v@[j].message@,
        decreases v@.len() - i,
    {
        out.push(
            Issue {
                severity: v[i].severity,
                message: crate::asset_graph::clone_text(&v[i].message),
            },
        );
        i += 1;
    }
    out
}

fn extend_ids(target: &mut Vec<u64>, src: &Vec<u64>)
    ensures
        final(target)@ == old(target)@ + src@,
{
    let mut i: usize = 0;
    proof {
        assert(old(target)@ + src@.subrange(0, 0) =~= old(target)@);
    }
    while i < src.len()
        invariant
            i <= src@.len(),
            target@ == old(target)@ + src@.subrange(0, i as int),
        decreases src@.len() - i,
    {
        target.push(src[i]);
        proof {
            assert(src@.subrange(0, i + 1) =~= src@.subrange(0, i as int).push(src@[i as int]));
            assert(target@ =~= old(target)@ + src@.subrange(0, i + 1));
        }
        i += 1;
    }
    proof {
        assert(src@.subrange(0, src@.len() as int) =~= src@);
    }
}

/// Runs one build to the point where every pending write is known. The
/// phases are sequential: the confinement check, the judgement of all
/// discovery diagnostics together, client-reference deduplication and
/// chunking, manifest assembly, and asset-graph traversal. A confinement
/// error or a fatal discovery diagnostic aborts with no write produced; on
/// success the writes are the manifests — the legacy snippets first, when a
/// build context is supplied — followed by one write per emitted asset.
pub fn next_build(i: &BuildInputs) -> (r: Result<BuildOutput, BuildError>)
    requires
        crate::client_reference::spec_covered(
            i.client_references@,
            i.client_chunking,
            i.ssr_chunking,
        ),
        forall|j: int|
            0 <= j < i.page_entries@.len() ==> i.ssr_chunking.spec_has_group(
                (#[trigger] i.page_entries@[j]).ssr_module,
            ) && i.client_chunking.spec_has_group(i.page_entries@[j].client_module),
        forall|j: int|
            0 <= j < i.page_entries@.len() ==> group_assets_known(
                i.asset_graph,
                i.ssr_chunking.spec_group((#[trigger] i.page_entries@[j]).ssr_module),
            ) && group_assets_known(
                i.asset_graph,
                i.client_chunking.spec_group(i.page_entries@[j].client_module),
            ),
        forall|j: int|
            0 <= j < i.app_entries@.len() ==> i.rsc_chunking.spec_has_group(
                (#[trigger] i.app_entries@[j]).rsc_entry,
            ) && i.rsc_chunking.spec_group(i.app_entries@[j].rsc_entry).len() > 0
                && group_assets_known(
                i.asset_graph,
                i.rsc_chunking.spec_group(i.app_entries@[j].rsc_entry),
            ),
    ensures
        r is Ok <==> (crate::paths::is_char_prefix(
            i.options.workspace_root@,
            i.options.project_root@,
        ) && !crate::diagnostics::spec_has_fatal(i.page_entry_issues@ + i.app_entry_issues@)),
        !crate::paths::is_char_prefix(i.options.workspace_root@, i.options.project_root@) ==> (r
            is Err && r->Err_0 is Confinement),
        (crate::paths::is_char_prefix(i.options.workspace_root@, i.options.project_root@)
            && crate::diagnostics::spec_has_fatal(i.page_entry_issues@ + i.app_entry_issues@))
            ==> (r is Err && err_issue_views(r->Err_0) == Some(
            issue_views(i.page_entry_issues@ + i.app_entry_issues@),
        )),
        r is Ok ==> exists|sv: Seq<Seq<char>>| build_output_matches(*i, r->Ok_0, sv),
{
    // Confinement: the project must be nested under the workspace root.
    if crate::paths::project_relative(
        i.options.workspace_root.as_str(),
        i.options.project_root.as_str(),
        '/',
    ).is_none() {
        return Err(BuildError::Confinement);
    }
    // Judge all discovery diagnostics together: a fatal one aborts before
    // any manifest exists.
    let combined = crate::diagnostics::concat_issues(
        clone_issues(&i.page_entry_issues),
        clone_issues(&i.app_entry_issues),
    );
    let ghost orig_combined = i.page_entry_issues@ + i.app_entry_issues@;
    proof {
        assert(combined@.len() == orig_combined.len());
        assert forall|j: int|
            0 <= j < combined@.len() implies (#[trigger] combined@[j]).severity
            == orig_combined[j].severity && combined@[j].message@ == orig_combined[j].message@ by {
            if j < i.page_entry_issues@.len() {
            } else {
            }
        }
        assert(crate::diagnostics::spec_has_fatal(combined@) == crate::diagnostics::spec_has_fatal(
            orig_combined,
        )) by {
            if crate::diagnostics::spec_has_fatal(combined@) {
                let j = choose|j: int|
                    0 <= j < combined@.len() && combined@[j].is_fatal();
                assert(orig_combined[j].is_fatal());
            }
            if crate::diagnostics::spec_has_fatal(orig_combined) {
                let j = choose|j: int|
                    0 <= j < orig_combined.len() && orig_combined[j].is_fatal();
                assert(combined@[j].is_fatal());
            }
        }
        assert(issue_views(combined@) =~= issue_views(orig_combined));
    }
    match crate::diagnostics::handle_issues(combined) {
        Ok(()) => {},
        Err(e) => {
            return Err(e);
        },
    }
    // PAGE CHUNKING: each page's SSR and client chunk groups feed the two
    // page manifests and the shared emission set.
    let mut all_chunks: Vec<u64> = Vec::new();
    let mut pages_manifest = crate::manifests::PagesManifest::new();
    let mut build_manifest = crate::manifests::BuildManifest::new();
    let mut pj: usize = 0;
    proof {
        assert(crate::manifests::pages_map_view(pages_manifest.pages@) =~= spec_pages_manifest_pages(
            *i,
        ).subrange(0, 0));
        assert(crate::manifests::pages_map_view(build_manifest.pages@) =~= spec_build_manifest_pages(
            *i,
        ).subrange(0, 0));
    }
    while pj < i.page_entries.len()
        invariant
            pj <= i.page_entries@.len(),
            forall|j: int|
                0 <= j < i.page_entries@.len() ==> i.ssr_chunking.spec_has_group(
                    (#[trigger] i.page_entries@[j]).ssr_module,
                ) && i.client_chunking.spec_has_group(i.page_entries@[j].client_module),
            forall|j: int|
                0 <= j < i.page_entries@.len() ==> group_assets_known(
                    i.asset_graph,
                    i.ssr_chunking.spec_group((#[trigger] i.page_entries@[j]).ssr_module),
                ) && group_assets_known(
                    i.asset_graph,
                    i.client_chunking.spec_group(i.page_entries@[j].client_module),
                ),
            crate::manifests::pages_map_view(pages_manifest.pages@) == spec_pages_manifest_pages(
                *i,
            ).subrange(0, pj as int),
            crate::manifests::pages_map_view(build_manifest.pages@) == spec_build_manifest_pages(
                *i,
            ).subrange(0, pj as int),
            build_manifest.low_priority_files@.len() == 0,
        decreases i.page_entries@.len() - pj,
    {
        let e = &i.page_entries[pj];
        let ssr_group = i.ssr_chunking.chunk_group(e.ssr_module);
        let client_group = i.client_chunking.chunk_group(e.client_module);
        let ssr_paths = asset_paths(&i.asset_graph, &ssr_group);
        let client_paths = asset_paths(&i.asset_graph, &client_group);
        let ghost pm_pre = crate::manifests::pages_map_view(pages_manifest.pages@);
        let ghost bm_pre = crate::manifests::pages_map_view(build_manifest.pages@);
        pages_manifest.pages.push((crate::asset_graph::clone_text(&e.pathname), ssr_paths));
        build_manifest.pages.push((crate::asset_graph::clone_text(&e.pathname), client_paths));
        extend_ids(&mut all_chunks, &ssr_group);
        extend_ids(&mut all_chunks, &client_group);
        proof {
            let sp = spec_pages_manifest_pages(*i);
            let sb = spec_build_manifest_pages(*i);
            assert(sp.subrange(0, pj + 1) =~= sp.subrange(0, pj as int).push(sp[pj as int]));
            assert(sb.subrange(0, pj + 1) =~= sb.subrange(0, pj as int).push(sb[pj as int]));
            assert(crate::manifests::pages_map_view(pages_manifest.pages@) =~= pm_pre.push(
                sp[pj as int],
            ));
            assert(crate::manifests::pages_map_view(build_manifest.pages@) =~= bm_pre.push(
                sb[pj as int],
            ));
        }
        pj += 1;
    }
    proof {
        assert(spec_pages_manifest_pages(*i).subrange(0, i.page_entries@.len() as int)
            =~= spec_pages_manifest_pages(*i));
        assert(spec_build_manifest_pages(*i).subrange(0, i.page_entries@.len() as int)
            =~= spec_build_manifest_pages(*i));
    }
    // CLIENT REFERENCES: deduplicate by identity, then chunk each reference
    // once, folding every produced chunk into the emission set.
    let deduped = crate::client_reference::dedup_client_reference_types(&i.client_references);
    proof {
        assert forall|j: int|
            0 <= j < deduped@.len() implies match #[trigger] deduped@[j] {
            ClientReferenceType::EcmascriptClientReference { client_module, ssr_module } => {
                i.client_chunking.spec_has_group(client_module) && i.ssr_chunking.spec_has_group(
                    ssr_module,
                )
            },
            ClientReferenceType::CssClientReference { client_module } => i
                .client_chunking.spec_has_group(client_module),
        } by {
            assert(i.client_references@.contains(deduped@[j]));
            let l = choose|l: int|
                0 <= l < i.client_references@.len() && i.client_references@[l] == deduped@[j];
            assert(match i.client_references@[l] {
                ClientReferenceType::EcmascriptClientReference { client_module, ssr_module } => {
                    i.client_chunking.spec_has_group(client_module)
                        && i.ssr_chunking.spec_has_group(ssr_module)
                },
                ClientReferenceType::CssClientReference { client_module } => i
                    .client_chunking.spec_has_group(client_module),
            });
        }
    }
    // The per-reference chunk map itself feeds the app-entry chunking step,
    // which this pipeline folds into the app manifests below; the chunks all
    // went into the emission set.
    let _reference_chunks = crate::client_reference::compute_app_client_references_chunks(
        &deduped,
        &i.client_chunking,
        &i.ssr_chunking,
        &mut all_chunks,
    );
    // APP CHUNKING: each app route's RSC chunk group feeds the app
    // manifests and the emission set.
    let mut app_build_manifest = crate::manifests::AppBuildManifest::new();
    let mut app_paths_manifest = crate::manifests::AppPathsManifest::new();
    let mut aj: usize = 0;
    proof {
        assert(crate::manifests::pages_map_view(app_build_manifest.pages@)
            =~= spec_app_build_pages(*i).subrange(0, 0));
        assert(crate::manifests::paths_map_view(app_paths_manifest.node_server_app_paths@)
            =~= spec_app_paths_map(*i).subrange(0, 0));
    }
    while aj < i.app_entries.len()
        invariant
            aj <= i.app_entries@.len(),
            forall|j: int|
                0 <= j < i.app_entries@.len() ==> i.rsc_chunking.spec_has_group(
                    (#[trigger] i.app_entries@[j]).rsc_entry,
                ) && i.rsc_chunking.spec_group(i.app_entries@[j].rsc_entry).len() > 0
                    && group_assets_known(
                    i.asset_graph,
                    i.rsc_chunking.spec_group(i.app_entries@[j].rsc_entry),
                ),
            crate::manifests::pages_map_view(app_build_manifest.pages@) == spec_app_build_pages(
                *i,
            ).subrange(0, aj as int),
            crate::manifests::paths_map_view(app_paths_manifest.node_server_app_paths@)
                == spec_app_paths_map(*i).subrange(0, aj as int),
        decreases i.app_entries@.len() - aj,
    {
        let e = &i.app_entries[aj];
        let rsc_group = i.rsc_chunking.chunk_group(e.rsc_entry);
        let rsc_paths = asset_paths(&i.asset_graph, &rsc_group);
        proof {
            assert(str_views(rsc_paths@).len() == spec_paths_of(
                i.asset_graph,
                i.rsc_chunking.spec_group(e.rsc_entry),
            ).len());
            assert(rsc_paths@.len() > 0);
            assert(str_views(rsc_paths@)[0] == rsc_paths@[0]@);
            assert(rsc_paths@[0]@ == i.asset_graph.spec_asset(
                i.rsc_chunking.spec_group(e.rsc_entry)[0],
            ).path);
        }
        let entry_path = crate::asset_graph::clone_text(&rsc_paths[0]);
        let ghost ab_pre = crate::manifests::pages_map_view(app_build_manifest.pages@);
        let ghost ap_pre = crate::manifests::paths_map_view(
            app_paths_manifest.node_server_app_paths@,
        );
        app_build_manifest.pages.push((crate::asset_graph::clone_text(&e.pathname), rsc_paths));
        app_paths_manifest.node_server_app_paths.push(
            (crate::asset_graph::clone_text(&e.pathname), entry_path),
        );
        extend_ids(&mut all_chunks, &rsc_group);
        proof {
            let sa = spec_app_build_pages(*i);
            let sp = spec_app_paths_map(*i);
            assert(sa.subrange(0, aj + 1) =~= sa.subrange(0, aj as int).push(sa[aj as int]));
            assert(sp.subrange(0, aj + 1) =~= sp.subrange(0, aj as int).push(sp[aj as int]));
            assert(crate::manifests::pages_map_view(app_build_manifest.pages@) =~= ab_pre.push(
                sa[aj as int],
            ));
            assert(crate::manifests::paths_map_view(app_paths_manifest.node_server_app_paths@)
                =~= ap_pre.push(sp[aj as int]));
        }
        aj += 1;
    }
    proof {
        assert(spec_app_build_pages(*i).subrange(0, i.app_entries@.len() as int)
            =~= spec_app_build_pages(*i));
        assert(spec_app_paths_map(*i).subrange(0, i.app_entries@.len() as int)
            =~= spec_app_paths_map(*i));
    }
    // LEGACY RUNTIME SNIPPETS and the sorted-route client manifest.
    let mut writes: Vec<FileWrite> = Vec::new();
    let ghost mut svv: Seq<Seq<char>> = Seq::<Seq<char>>::empty();
    match &i.options.build_context {
        Some(ctx) => {
            let ssg_head = crate::paths::join2("static/", ctx.build_id.as_str());
            let ssg_rel = crate::paths::join2(ssg_head.as_str(), "/_ssgManifest.js");
            writes.push(
                FileWrite {
                    path: path_under(i.options.node_root.as_str(), ssg_rel.as_str()),
                    content: crate::manifests::ssg_manifest_snippet(),
                },
            );
            // The page pathnames, sorted by the path order.
            let mut keys: Vec<String> = Vec::new();
            let mut kj: usize = 0;
            while kj < pages_manifest.pages.len()
                invariant
                    kj <= pages_manifest.pages@.len(),
                    keys@.len() == kj,
                    forall|j: int|
                        0 <= j < kj ==> (#[trigger] keys@[j])@ == pages_manifest.pages@[j].0@,
                decreases pages_manifest.pages@.len() - kj,
            {
                keys.push(crate::asset_graph::clone_text(&pages_manifest.pages[kj].0));
                kj += 1;
            }
            let ghost keys_pre = keys@;
            let sorted = crate::sorted_routes::get_sorted_routes(keys);
            proof {
                svv = str_views(sorted@);
            }
            let app_deps = lookup_list(&pages_manifest.pages, "/_app");
            let mut cm_pages: Vec<(String, Vec<String>)> = Vec::new();
            let ghost pm = spec_pages_manifest_pages(*i);
            let ghost ad = spec_lookup_list(pm, "/_app"@);
            let mut sj: usize = 0;
            proof {
                assert(crate::manifests::pages_map_view(cm_pages@)
                    =~= spec_client_pages_assembled(pm, ad, svv.subrange(0, 0)));
            }
            while sj < sorted.len()
                invariant
                    sj <= sorted@.len(),
                    svv == str_views(sorted@),
                    pm == spec_pages_manifest_pages(*i),
                    ad == spec_lookup_list(pm, "/_app"@),
                    crate::manifests::pages_map_view(pages_manifest.pages@) == pm,
                    str_views(app_deps@) == ad,
                    crate::manifests::pages_map_view(cm_pages@) == spec_client_pages_assembled(
                        pm,
                        ad,
                        svv.subrange(0, sj as int),
                    ),
                decreases sorted@.len() - sj,
            {
                let ghost cm_pre = crate::manifests::pages_map_view(cm_pages@);
                let page_is_app = str_eq(sorted[sj].as_str(), "/_app");
                if !page_is_app {
                    let base = lookup_list(&pages_manifest.pages, sorted[sj].as_str());
                    let deps = filtered_deps(&base, &app_deps);
                    if deps.len() > 0 {
                        cm_pages.push((crate::asset_graph::clone_text(&sorted[sj]), deps));
                    }
                }
                proof {
                    let sub2 = svv.subrange(0, sj + 1);
                    assert(sub2.drop_last() =~= svv.subrange(0, sj as int));
                    assert(sub2.last() == sorted@[sj as int]@);
                    assert(crate::manifests::pages_map_view(cm_pages@)
                        =~= spec_client_pages_assembled(pm, ad, sub2));
                }
                sj += 1;
            }
            proof {
                assert(svv.subrange(0, sorted@.len() as int) =~= svv);
            }
            let cm = crate::manifests::ClientBuildManifest {
                rewrites: crate::asset_graph::clone_text(&ctx.rewrites),
                sorted_pages: sorted,
                pages: cm_pages,
            };
            let cm_json = cm.to_json();
            let cm_head = crate::paths::join2("static/", ctx.build_id.as_str());
            let cm_rel = crate::paths::join2(cm_head.as_str(), "/_buildManifest.js");
            writes.push(
                FileWrite {
                    path: path_under(i.options.node_root.as_str(), cm_rel.as_str()),
                    content: crate::manifests::client_manifest_snippet(cm_json.as_str()),
                },
            );
            build_manifest.low_priority_files.push(ssg_rel);
            build_manifest.low_priority_files.push(cm_rel);
            proof {
                broadcast use vstd::seq_lib::group_to_multiset_ensures;

                assert(str_views(build_manifest.low_priority_files@) =~= spec_low_priority(*i));
                assert(crate::asset_graph::write_views(writes@) =~= spec_legacy_writes(*i, svv));
                // The sorted page list is a sorted arrangement of the page
                // pathnames.
                assert forall|a: int, b: int| 0 <= a <= b < svv.len() implies
                    crate::sorted_routes::lex_le(svv[a], svv[b]) by {
                    assert(svv[a] == cm.sorted_pages@[a]@ && svv[b] == cm.sorted_pages@[b]@);
                }
                assert(sorted_views(svv));
                assert(cm.sorted_pages@.len() == cm.sorted_pages@.to_multiset().len());
                assert(keys_pre.len() == keys_pre.to_multiset().len());
                assert(svv.len() == i.page_entries@.len());
                assert forall|x: Seq<char>| #[trigger]
                    svv.contains(x) <==> spec_pages_keys(*i).contains(x) by {
                    if svv.contains(x) {
                        let j = choose|j: int| 0 <= j < svv.len() && svv[j] == x;
                        assert(cm.sorted_pages@.contains(cm.sorted_pages@[j]));
                        assert(cm.sorted_pages@.to_multiset().count(cm.sorted_pages@[j]) > 0);
                        assert(keys_pre.to_multiset().count(cm.sorted_pages@[j]) > 0);
                        assert(keys_pre.contains(cm.sorted_pages@[j]));
                        let l = choose|l: int|
                            0 <= l < keys_pre.len() && keys_pre[l] == cm.sorted_pages@[j];
                        assert(keys_pre[l]@ == x);
                        assert(spec_pages_keys(*i)[l] == pm[l].0);
                        assert(pm[l].0 == pages_manifest.pages@[l].0@);
                        assert(spec_pages_keys(*i).contains(spec_pages_keys(*i)[l]));
                    }
                    if spec_pages_keys(*i).contains(x) {
                        let l = choose|l: int|
                            0 <= l < spec_pages_keys(*i).len() && spec_pages_keys(*i)[l] == x;
                        assert(pm[l].0 == pages_manifest.pages@[l].0@);
                        assert(keys_pre[l]@ == x);
                        assert(keys_pre.contains(keys_pre[l]));
                        assert(keys_pre.to_multiset().count(keys_pre[l]) > 0);
                        assert(cm.sorted_pages@.to_multiset().count(keys_pre[l]) > 0);
                        assert(cm.sorted_pages@.contains(keys_pre[l]));
                        let j = choose|j: int|
                            0 <= j < cm.sorted_pages@.len() && cm.sorted_pages@[j] == keys_pre[l];
                        assert(svv[j] == x);
                        assert(svv.contains(svv[j]));
                    }
                }
            }
        },
        None => {
            proof {
                assert(str_views(build_manifest.low_priority_files@) =~= spec_low_priority(*i));
                assert(crate::asset_graph::write_views(writes@) =~= spec_legacy_writes(*i, svv));
            }
        },
    }
    // MANIFEST DOCUMENTS, each written exactly once.
    let ghost legacy_count = writes@.len();
    writes.push(
        FileWrite {
            path: path_under(i.options.node_root.as_str(), manifest_file("server/pages-manifest").as_str()),
            content: pages_manifest.to_json(),
        },
    );
    writes.push(
        FileWrite {
            path: path_under(i.options.client_root.as_str(), manifest_file("app-build-manifest").as_str()),
            content: app_build_manifest.to_json(),
        },
    );
    writes.push(
        FileWrite {
            path: path_under(i.options.node_root.as_str(), manifest_file("server/app-paths-manifest").as_str()),
            content: app_paths_manifest.to_json(),
        },
    );
    writes.push(
        FileWrite {
            path: path_under(i.options.client_root.as_str(), manifest_file("build-manifest").as_str()),
            content: build_manifest.to_json(),
        },
    );
    writes.push(
        FileWrite {
            path: path_under(i.options.node_root.as_str(), manifest_file("server/middleware-manifest").as_str()),
            content: crate::manifests::middlewares_manifest_json(),
        },
    );
    writes.push(
        FileWrite {
            path: path_under(i.options.node_root.as_str(), manifest_file("server/next-font-manifest").as_str()),
            content: crate::manifests::empty_manifest_json(),
        },
    );
    writes.push(
        FileWrite {
            path: path_under(i.options.node_root.as_str(), manifest_file("server/font-manifest").as_str()),
            content: crate::manifests::empty_manifest_json(),
        },
    );
    writes.push(
        FileWrite {
            path: path_under(i.options.node_root.as_str(), manifest_file("server/server-reference-manifest").as_str()),
            content: crate::manifests::empty_manifest_json(),
        },
    );
    writes.push(
        FileWrite {
            path: path_under(i.options.node_root.as_str(), manifest_file("react-loadable-manifest").as_str()),
            content: crate::manifests::empty_manifest_json(),
        },
    );
    proof {
        assert(crate::asset_graph::write_views(writes@) =~= spec_fixed_writes(*i, svv));
    }
    // EMISSION: one traversal over everything chunked anywhere above.
    let client_relative = crate::paths::join2(i.options.client_root.as_str(), "/_next");
    let emission = crate::asset_graph::emit_all_assets(
        &i.asset_graph,
        &all_chunks,
        i.options.node_root.as_str(),
        client_relative.as_str(),
        i.options.client_root.as_str(),
    );
    let emitted = emission.0;
    let mut asset_writes = emission.1;
    let ghost fixed_views = crate::asset_graph::write_views(writes@);
    writes.append(&mut asset_writes);
    proof {
        assert(crate::asset_graph::write_views(writes@) =~= fixed_views
            + crate::asset_graph::write_views(emission.1@));
        assert(crate::asset_graph::write_views(writes@) == spec_fixed_writes(*i, svv)
            + crate::asset_graph::spec_asset_writes(
            i.asset_graph,
            emitted@,
            i.options.node_root@,
            i.options.client_root@ + "/_next"@,
            i.options.client_root@,
        ));
    }
    let out = BuildOutput { writes, emitted_assets: emitted };
    let ghost out_g = out;
    let res: Result<BuildOutput, BuildError> = Ok(out);
    proof {
        assert(res->Ok_0 == out_g);
        assert(build_output_matches(*i, res->Ok_0, svv));
        assert(exists|sv: Seq<Seq<char>>| build_output_matches(*i, res->Ok_0, sv));
    }
    res
}

} // verus!
