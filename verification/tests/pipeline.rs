use next_build::asset_graph::{AssetGraph, OutputAsset};
use next_build::client_reference::{ChunkingContext, ClientReferenceType};
use next_build::diagnostics::{BuildError, Issue, IssueSeverity};
use next_build::next_build::{
    next_build, AppBuildEntry, BuildContext, BuildInputs, BuildOptions, PageBuildEntry,
};

fn json_path(stem: &str) -> String {
    format!("{}{}", stem, ".json")
}

fn asset(id: u64, path: &str, content: &str) -> OutputAsset {
    OutputAsset { id, path: path.to_string(), content: content.to_string(), references: Vec::new() }
}

fn base_inputs() -> BuildInputs {
    BuildInputs {
        options: BuildOptions {
            workspace_root: "/work".to_string(),
            project_root: "/work/web".to_string(),
            node_root: ".next".to_string(),
            client_root: "client".to_string(),
            build_context: None,
        },
        page_entry_issues: Vec::new(),
        app_entry_issues: Vec::new(),
        page_entries: vec![PageBuildEntry {
            pathname: "/".to_string(),
            ssr_module: 1,
            client_module: 2,
        }],
        app_entries: vec![AppBuildEntry { pathname: "/dash".to_string(), rsc_entry: 3 }],
        client_references: vec![
            ClientReferenceType::CssClientReference { client_module: 4 },
            ClientReferenceType::CssClientReference { client_module: 4 },
        ],
        client_chunking: ChunkingContext { groups: vec![(2, vec![20]), (4, vec![40])] },
        ssr_chunking: ChunkingContext { groups: vec![(1, vec![10])] },
        rsc_chunking: ChunkingContext { groups: vec![(3, vec![30])] },
        asset_graph: AssetGraph {
            assets: vec![
                asset(10, ".next/server/pages/index.js", "ssr"),
                asset(20, "client/_next/static/chunks/index.js", "client"),
                asset(30, ".next/server/app/dash.js", "rsc"),
                asset(40, "client/_next/static/css/global.css", "css"),
            ],
        },
    }
}

#[test]
fn scenario_fatal_discovery_writes_nothing() {
    // A fatal diagnostic during entry discovery: the build fails before any
    // manifest write is produced.
    let mut inputs = base_inputs();
    inputs.page_entry_issues.push(Issue {
        severity: IssueSeverity::Error,
        message: "cannot resolve module".to_string(),
    });
    inputs.app_entry_issues.push(Issue {
        severity: IssueSeverity::Warning,
        message: "minor".to_string(),
    });
    match next_build(&inputs) {
        Err(BuildError::FatalDiagnostic { issues }) => {
            // All collected diagnostics are reported together.
            assert_eq!(issues.len(), 2);
            assert_eq!(issues[0].message, "cannot resolve module");
            assert_eq!(issues[1].message, "minor");
        },
        other => panic!("expected a fatal diagnostic, got {:?}", other),
    }
}

#[test]
fn confinement_error_is_surfaced_first() {
    let mut inputs = base_inputs();
    inputs.options.project_root = "/elsewhere".to_string();
    assert!(matches!(next_build(&inputs), Err(BuildError::Confinement)));
}

#[test]
fn build_writes_manifests_and_assets() {
    let output = next_build(&base_inputs()).unwrap();
    // Nine manifest documents, then one write per emitted asset.
    assert_eq!(output.writes.len(), 9 + 4);
    let paths: Vec<&str> = output.writes.iter().map(|w| w.path.as_str()).collect();
    assert_eq!(paths[0], json_path(".next/server/pages-manifest"));
    assert_eq!(paths[1], json_path("client/app-build-manifest"));
    assert_eq!(paths[2], json_path(".next/server/app-paths-manifest"));
    assert_eq!(paths[3], json_path("client/build-manifest"));
    assert_eq!(paths[4], json_path(".next/server/middleware-manifest"));
    assert_eq!(paths[8], json_path(".next/react-loadable-manifest"));
    assert_eq!(
        output.writes[0].content,
        "{\"pages\":{\"/\":[\".next/server/pages/index.js\"]}}"
    );
    assert_eq!(
        output.writes[2].content,
        "{\"node_server_app_paths\":{\"/dash\":\".next/server/app/dash.js\"}}"
    );
    // Assets under the node root are written verbatim; client-relative ones
    // are rebased into the client root.
    assert!(paths.contains(&".next/server/pages/index.js"));
    assert!(paths.contains(&"client/static/chunks/index.js"));
    assert!(paths.contains(&".next/server/app/dash.js"));
    assert!(paths.contains(&"client/static/css/global.css"));
    assert_eq!(output.emitted_assets.len(), 4);
}

#[test]
fn scenario_legacy_snippets_and_low_priority_files() {
    // With legacy build id "abc123": the two runtime snippets are written
    // under static/abc123/, and the build manifest lists both.
    let mut inputs = base_inputs();
    inputs.options.build_context = Some(BuildContext {
        build_id: "abc123".to_string(),
        rewrites: "{}".to_string(),
    });
    let output = next_build(&inputs).unwrap();
    assert_eq!(output.writes[0].path, ".next/static/abc123/_ssgManifest.js");
    assert_eq!(
        output.writes[0].content,
        "self.__SSG_MANIFEST=new Set;self.__SSG_MANIFEST_CB&&self.__SSG_MANIFEST_CB()"
    );
    assert_eq!(output.writes[1].path, ".next/static/abc123/_buildManifest.js");
    assert_eq!(
        output.writes[1].content,
        "self.__BUILD_MANIFEST={\"__rewrites\":{},\"/\":[\".next/server/pages/index.js\"],\"sortedPages\":[\"/\"]};self.__BUILD_MANIFEST_CB && self.__BUILD_MANIFEST_CB()"
    );
    let build_manifest_write = output
        .writes
        .iter()
        .find(|w| w.path == json_path("client/build-manifest"))
        .unwrap();
    assert!(build_manifest_write.content.contains(
        "\"lowPriorityFiles\":[\"static/abc123/_ssgManifest.js\",\"static/abc123/_buildManifest.js\"]"
    ));
}

#[test]
fn app_dependencies_are_filtered_from_client_manifest() {
    // Dependencies already satisfied by /_app are dropped per page, and
    // /_app itself is excluded from the client manifest's page table.
    let mut inputs = base_inputs();
    inputs.options.build_context = Some(BuildContext {
        build_id: "b1".to_string(),
        rewrites: "{}".to_string(),
    });
    inputs.page_entries = vec![
        PageBuildEntry { pathname: "/_app".to_string(), ssr_module: 5, client_module: 2 },
        PageBuildEntry { pathname: "/about".to_string(), ssr_module: 6, client_module: 2 },
    ];
    inputs.ssr_chunking = ChunkingContext {
        groups: vec![(5, vec![50]), (6, vec![50, 60])],
    };
    let mut assets = base_inputs().asset_graph.assets;
    assets.push(asset(50, ".next/server/chunks/framework.js", "fw"));
    assets.push(asset(60, ".next/server/pages/about.js", "about"));
    inputs.asset_graph = AssetGraph { assets };
    let output = next_build(&inputs).unwrap();
    // /about keeps only the dependency /_app does not already provide.
    assert_eq!(
        output.writes[1].content,
        "self.__BUILD_MANIFEST={\"__rewrites\":{},\"/about\":[\".next/server/pages/about.js\"],\"sortedPages\":[\"/_app\",\"/about\"]};self.__BUILD_MANIFEST_CB && self.__BUILD_MANIFEST_CB()"
    );
}
