use next_build::manifests::{
    client_manifest_snippet, empty_manifest_json, middlewares_manifest_json,
    ssg_manifest_snippet, AppPathsManifest, BuildManifest, ClientBuildManifest, PagesManifest,
};
use next_build::sorted_routes::get_sorted_routes;

#[test]
fn pages_manifest_serializes_to_json() {
    let manifest = PagesManifest {
        pages: vec![
            ("/".to_string(), vec!["server/pages/index.js".to_string()]),
            (
                "/about".to_string(),
                vec!["server/pages/about.js".to_string(), "server/chunks/shared.js".to_string()],
            ),
        ],
    };
    assert_eq!(
        manifest.to_json(),
        "{\"pages\":{\"/\":[\"server/pages/index.js\"],\"/about\":[\"server/pages/about.js\",\"server/chunks/shared.js\"]}}"
    );
}

#[test]
fn empty_manifests_are_well_formed() {
    assert_eq!(PagesManifest::new().to_json(), "{\"pages\":{}}");
    assert_eq!(AppPathsManifest::new().to_json(), "{\"node_server_app_paths\":{}}");
    assert_eq!(
        middlewares_manifest_json(),
        "{\"sortedMiddleware\":[],\"middleware\":{},\"functions\":{},\"version\":2}"
    );
    assert_eq!(empty_manifest_json(), "{}");
}

#[test]
fn json_strings_are_escaped() {
    let manifest = PagesManifest {
        pages: vec![("/\"quote\\back\u{1}".to_string(), vec![])],
    };
    assert_eq!(
        manifest.to_json(),
        "{\"pages\":{\"/\\\"quote\\\\back\\u0001\":[]}}"
    );
}

#[test]
fn build_manifest_lists_low_priority_files() {
    let manifest = BuildManifest {
        pages: vec![("/".to_string(), vec!["static/chunks/index.js".to_string()])],
        low_priority_files: vec![
            "static/abc123/_ssgManifest.js".to_string(),
            "static/abc123/_buildManifest.js".to_string(),
        ],
    };
    assert_eq!(
        manifest.to_json(),
        "{\"pages\":{\"/\":[\"static/chunks/index.js\"]},\"lowPriorityFiles\":[\"static/abc123/_ssgManifest.js\",\"static/abc123/_buildManifest.js\"]}"
    );
}

#[test]
fn snippets_assign_globals_and_invoke_callbacks() {
    assert_eq!(
        ssg_manifest_snippet(),
        "self.__SSG_MANIFEST=new Set;self.__SSG_MANIFEST_CB&&self.__SSG_MANIFEST_CB()"
    );
    assert_eq!(
        client_manifest_snippet("{\"sortedPages\":[]}"),
        "self.__BUILD_MANIFEST={\"sortedPages\":[]};self.__BUILD_MANIFEST_CB && self.__BUILD_MANIFEST_CB()"
    );
}

#[test]
fn client_build_manifest_serializes() {
    let manifest = ClientBuildManifest {
        rewrites: "{\"beforeFiles\":[]}".to_string(),
        sorted_pages: vec!["/".to_string(), "/about".to_string()],
        pages: vec![("/about".to_string(), vec!["static/about.js".to_string()])],
    };
    assert_eq!(
        manifest.to_json(),
        "{\"__rewrites\":{\"beforeFiles\":[]},\"/about\":[\"static/about.js\"],\"sortedPages\":[\"/\",\"/about\"]}"
    );
}

#[test]
fn sorted_routes_are_ordered_and_complete() {
    let sorted = get_sorted_routes(vec![
        "/b".to_string(),
        "/a".to_string(),
        "/a/c".to_string(),
        "/".to_string(),
    ]);
    assert_eq!(
        sorted,
        vec!["/".to_string(), "/a".to_string(), "/a/c".to_string(), "/b".to_string()]
    );
}

#[test]
fn sorted_routes_keep_duplicates() {
    let sorted = get_sorted_routes(vec!["/x".to_string(), "/x".to_string(), "/a".to_string()]);
    assert_eq!(sorted, vec!["/a".to_string(), "/x".to_string(), "/x".to_string()]);
}
