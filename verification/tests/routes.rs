use next_build::pages::{PagesDirectoryStructure, PagesStructure, PagesStructureItem};
use next_build::project::{EntrypointsOptions, Project, ProjectOptions};
use next_build::route::{Endpoint, EndpointKind, Route};
use next_build::diagnostics::BuildError;
use next_build::pages::get_pages_routes;

fn item(router: &str, original: &str, project: &str) -> PagesStructureItem {
    PagesStructureItem {
        next_router_path: router.to_string(),
        original_path: original.to_string(),
        project_path: project.to_string(),
    }
}

fn leaf_dir(items: Vec<PagesStructureItem>) -> PagesDirectoryStructure {
    PagesDirectoryStructure { items, children: Vec::new() }
}

#[test]
fn scenario_pages_and_api_routes() {
    // pages/index.js and pages/api/hello.js
    let structure = PagesStructure {
        api: Some(leaf_dir(vec![item("api/hello", "api/hello.js", "pages/api/hello.js")])),
        pages: Some(leaf_dir(vec![item("", "index.js", "pages/index.js")])),
    };
    let routes = get_pages_routes(&structure);
    assert_eq!(routes.len(), 2);
    match routes.get("/").unwrap() {
        Route::Page { html_endpoint, data_endpoint } => {
            assert_eq!(html_endpoint.kind, EndpointKind::PageHtml);
            assert_eq!(html_endpoint.pathname, "/");
            assert_eq!(html_endpoint.original_name, "/index.js");
            assert_eq!(html_endpoint.path, "pages/index.js");
            assert_eq!(data_endpoint.kind, EndpointKind::PageData);
        },
        other => panic!("expected a page route, got {:?}", other),
    }
    match routes.get("/api/hello").unwrap() {
        Route::PageApi { endpoint } => {
            assert_eq!(endpoint.kind, EndpointKind::PageApi);
            assert_eq!(endpoint.pathname, "/api/hello");
        },
        other => panic!("expected an api route, got {:?}", other),
    }
    for key in routes.keys() {
        assert!(key.starts_with('/'));
    }
}

#[test]
fn scenario_app_and_pages_conflict() {
    // app/foo/page.tsx and pages/foo.js both resolve to /foo.
    let project = Project { root_path: "/work".to_string(), project_path: "web".to_string() };
    let app_routes = vec![(
        "/foo".to_string(),
        Route::AppRoute {
            endpoint: Endpoint::new_app_route(
                "/foo".to_string(),
                "/foo/page.tsx".to_string(),
                "app/foo/page.tsx".to_string(),
            ),
        },
    )];
    let structure = PagesStructure {
        api: None,
        pages: Some(leaf_dir(vec![item("foo", "foo.js", "pages/foo.js")])),
    };
    let options = EntrypointsOptions { page_extensions: vec!["js".to_string(), "tsx".to_string()] };
    let entrypoints = project.entrypoints(&options, app_routes, &structure);
    assert!(entrypoints.middleware.is_none());
    assert_eq!(entrypoints.routes.len(), 1);
    assert!(matches!(entrypoints.routes.get("/foo").unwrap(), Route::Conflict));
}

#[test]
fn app_route_without_collision_is_kept() {
    let project = Project { root_path: "/work".to_string(), project_path: "web".to_string() };
    let app_routes = vec![(
        "/dash".to_string(),
        Route::AppRoute {
            endpoint: Endpoint::new_app_route(
                "/dash".to_string(),
                "/dash/page.tsx".to_string(),
                "app/dash/page.tsx".to_string(),
            ),
        },
    )];
    let structure = PagesStructure {
        api: None,
        pages: Some(leaf_dir(vec![item("foo", "foo.js", "pages/foo.js")])),
    };
    let options = EntrypointsOptions { page_extensions: vec!["js".to_string()] };
    let entrypoints = project.entrypoints(&options, app_routes, &structure);
    assert_eq!(entrypoints.routes.len(), 2);
    assert!(matches!(entrypoints.routes.get("/dash").unwrap(), Route::AppRoute { .. }));
    assert!(matches!(entrypoints.routes.get("/foo").unwrap(), Route::Page { .. }));
    // App routes come first in the table's order.
    let keys: Vec<&String> = entrypoints.routes.keys().collect();
    assert_eq!(keys, vec!["/dash", "/foo"]);
}

#[test]
fn deep_directory_tree_is_walked() {
    let grandchild = leaf_dir(vec![item("a/b/deep", "a/b/deep.js", "pages/a/b/deep.js")]);
    let child = PagesDirectoryStructure {
        items: vec![item("a/mid", "a/mid.js", "pages/a/mid.js")],
        children: vec![grandchild],
    };
    let root = PagesDirectoryStructure {
        items: vec![item("top", "top.js", "pages/top.js")],
        children: vec![child],
    };
    let structure = PagesStructure { api: None, pages: Some(root) };
    let routes = get_pages_routes(&structure);
    assert_eq!(routes.len(), 3);
    assert!(routes.contains_key("/top"));
    assert!(routes.contains_key("/a/mid"));
    assert!(routes.contains_key("/a/b/deep"));
}

#[test]
fn project_new_rejects_escaping_path() {
    let err = Project::new(
        ProjectOptions {
            root_path: "/work".to_string(),
            project_path: "/elsewhere/web".to_string(),
            watch: false,
        },
        '/',
    );
    assert!(matches!(err, Err(BuildError::Confinement)));
}

#[test]
fn project_new_normalizes_separators() {
    let project = Project::new(
        ProjectOptions {
            root_path: "C:\\work".to_string(),
            project_path: "C:\\work\\apps\\web".to_string(),
            watch: true,
        },
        '\\',
    )
    .unwrap();
    assert_eq!(project.root_path, "C:\\work");
    assert_eq!(project.project_path, "apps/web");
}
