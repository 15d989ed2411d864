//! The project and its entrypoints: the chroot-confined project description,
//! and the resolution of app and page route sources into one canonical route
//! table. App routes are inserted first; a pathname claimed by both sources
//! becomes the `Conflict` sentinel, never a silent overwrite.

use vstd::prelude::*;
use indexmap::IndexMap;
use crate::diagnostics::BuildError;
use crate::pages::{dir_leaves, get_pages_routes, spec_pages_routes, PagesStructure};
use crate::paths::{is_char_prefix, project_relative, spec_project_relative};
use crate::route::{Endpoint, Route};
use crate::route_table::{
    entries_unique, entry_value_of, has_entry_key, lemma_insert_all_has_key,
    lemma_insert_all_unique, lemma_merge_conflict, lemma_merge_has_key, lemma_merge_unique,
    route_entries, route_map_contains_key, route_map_insert, route_map_new, spec_insert_all,
    spec_merge_pages, EntryView, RouteView,
};

verus! {

/// How a project is opened.
#[derive(Debug, Clone)]
pub struct ProjectOptions {
    /// A root path from which all files must be nested under. Trying to
    /// access a file outside this root will fail. Think of this as a chroot.
    pub root_path: String,
    /// A path inside the root_path which contains the app/pages directories.
    pub project_path: String,
    /// Whether to watch the filesystem for file changes.
    pub watch: bool,
}

/// What entrypoint discovery scans for.
#[derive(Debug, Clone)]
pub struct EntrypointsOptions {
    /// File extensions to scan inside our project.
    pub page_extensions: Vec<String>,
}

/// The middleware descriptor of a route table, when the project has one.
#[derive(Debug, Clone)]
pub struct Middleware {
    pub endpoint: Endpoint,
}

/// One canonical route table: an ordered mapping from pathname to route,
/// keys unique, plus an optional middleware descriptor. Built once per
/// discovery invocation and immutable afterward.
#[derive(Debug)]
pub struct Entrypoints {
    pub routes: IndexMap<String, Route>,
    pub middleware: Option<Middleware>,
}

/// A project confined to its root: the disk root the filesystem is mounted
/// at, and the project directory as a `/`-separated path relative to that
/// root. No path the build produces escapes the root.
#[derive(Debug, Clone)]
pub struct Project {
    pub root_path: String,
    pub project_path: String,
}

/// The app-source route pairs at the ghost level.
pub open spec fn pair_views(s: Seq<(String, Route)>) -> Seq<EntryView> {
    s.map_values(|p: (String, Route)| (p.0@, p.1@))
}

/// The route table entrypoint discovery produces: app routes inserted first,
/// then the page/api routes merged with the conflict policy.
pub open spec fn spec_entrypoints_routes(app: Seq<EntryView>, ps: PagesStructure) -> Seq<
    EntryView,
> {
    spec_merge_pages(spec_insert_all(Seq::<EntryView>::empty(), app), spec_pages_routes(ps))
}

impl Project {
    /// Opens a project. Fails exactly when the project path is not nested
    /// under the root: the confinement error is surfaced before any work
    /// starts. `sep` is the platform's path separator.
    pub fn new(options: ProjectOptions, sep: char) -> (r: Result<Project, BuildError>)
        ensures
            r is Ok <==> is_char_prefix(options.root_path@, options.project_path@),
            r is Ok ==> r->Ok_0.root_path@ == options.root_path@,
            r is Ok ==> r->Ok_0.project_path@ == spec_project_relative(
                options.root_path@,
                options.project_path@,
                sep,
            ),
            r is Err ==> r->Err_0 is Confinement,
    {
        match project_relative(options.root_path.as_str(), options.project_path.as_str(), sep) {
            Some(rel) => Ok(Project { root_path: options.root_path, project_path: rel }),
            None => Err(BuildError::Confinement),
        }
    }

    /// Resolves the app and page sources into one route table. App-derived
    /// routes are handed over by the app-directory collaborator as plain
    /// pairs and inserted first; then every page/api route is merged in: a
    /// fresh pathname takes the page route, a pathname already owned becomes
    /// `Conflict`.
    pub fn entrypoints(
        &self,
        options: &EntrypointsOptions,
        app_routes: Vec<(String, Route)>,
        page_structure: &PagesStructure,
    ) -> (r: Entrypoints)
        ensures
            route_entries(r.routes) == spec_entrypoints_routes(
                pair_views(app_routes@),
                *page_structure,
            ),
            entries_unique(route_entries(r.routes)),
            r.middleware is None,
    {
        let ghost app_full = pair_views(app_routes@);
        let mut routes = route_map_new();
        let mut app = app_routes;
        proof {
            assert(app@.subrange(0, app@.len() as int) =~= app@);
        }
        while app.len() > 0
            invariant
                route_entries(routes) == spec_insert_all(
                    Seq::<EntryView>::empty(),
                    app_full.subrange(0, app_full.len() - app@.len()),
                ),
                app@.len() <= app_full.len(),
                pair_views(app@) =~= app_full.subrange(
                    app_full.len() - app@.len(),
                    app_full.len() as int,
                ),
            decreases app@.len(),
        {
            let ghost idx = app_full.len() - app@.len();
            let ghost rem_pre = app@;
            let (k, v) = app.remove(0);
            proof {
                assert(pair_views(rem_pre)[0] == (rem_pre[0].0@, rem_pre[0].1@));
                assert(app_full[idx as int] == (k@, v@));
                assert(app_full.subrange(0, idx + 1) =~= app_full.subrange(0, idx as int).push(
                    app_full[idx as int],
                ));
                crate::pages::lemma_insert_all_push(
                    Seq::<EntryView>::empty(),
                    app_full.subrange(0, idx as int),
                    app_full[idx as int],
                );
            }
            route_map_insert(&mut routes, k, v);
            proof {
                assert(app@ =~= rem_pre.subrange(1, rem_pre.len() as int));
                assert forall|j: int| 0 <= j < app@.len() implies pair_views(app@)[j]
                    == app_full.subrange(idx + 1, app_full.len() as int)[j] by {
                    assert(pair_views(rem_pre)[j + 1] == (rem_pre[j + 1].0@, rem_pre[j + 1].1@));
                }
                assert(pair_views(app@) =~= app_full.subrange(idx + 1, app_full.len() as int));
            }
        }
        proof {
            assert(app_full.subrange(0, app_full.len() as int) =~= app_full);
        }
        let ghost after_app = route_entries(routes);
        // Page/api routes, merged with the conflict policy.
        let pages_map = get_pages_routes(page_structure);
        let mut pages = crate::route_table::route_map_to_vec(&pages_map);
        let ghost pages_full = spec_pages_routes(*page_structure);
        proof {
            assert(pair_views(pages@) =~= pages_full);
            assert(pages_full.subrange(0, 0) =~= Seq::<EntryView>::empty());
        }
        while pages.len() > 0
            invariant
                route_entries(routes) == spec_merge_pages(
                    after_app,
                    pages_full.subrange(0, pages_full.len() - pages@.len()),
                ),
                pages@.len() <= pages_full.len(),
                pair_views(pages@) =~= pages_full.subrange(
                    pages_full.len() - pages@.len(),
                    pages_full.len() as int,
                ),
            decreases pages@.len(),
        {
            let ghost idx = pages_full.len() - pages@.len();
            let ghost rem_pre = pages@;
            let (k, v) = pages.remove(0);
            proof {
                assert(pair_views(rem_pre)[0] == (rem_pre[0].0@, rem_pre[0].1@));
                assert(pages_full[idx as int] == (k@, v@));
                assert(pages_full.subrange(0, idx + 1) =~= pages_full.subrange(0, idx as int).push(
                    pages_full[idx as int],
                ));
                crate::route_table::lemma_merge_push(
                    after_app,
                    pages_full.subrange(0, idx as int),
                    pages_full[idx as int],
                );
            }
            if route_map_contains_key(&routes, &k) {
                route_map_insert(&mut routes, k, Route::Conflict);
            } else {
                route_map_insert(&mut routes, k, v);
            }
            proof {
                assert(pages@ =~= rem_pre.subrange(1, rem_pre.len() as int));
                assert forall|j: int| 0 <= j < pages@.len() implies pair_views(pages@)[j]
                    == pages_full.subrange(idx + 1, pages_full.len() as int)[j] by {
                    assert(pair_views(rem_pre)[j + 1] == (rem_pre[j + 1].0@, rem_pre[j + 1].1@));
                }
                assert(pair_views(pages@) =~= pages_full.subrange(idx + 1, pages_full.len() as int));
            }
        }
        proof {
            assert(pages_full.subrange(0, pages_full.len() as int) =~= pages_full);
            lemma_insert_all_unique(Seq::<EntryView>::empty(), app_full);
            lemma_merge_unique(after_app, pages_full);
        }
        Entrypoints { routes, middleware: None }
    }
}

// ---------------------------------------------------------------------------
// Laws of the route table.
// ---------------------------------------------------------------------------

/// Law: every leaf of the page/api structure yields a route entry in the
/// final table, keyed by a pathname that starts with `/`; together with the
/// uniqueness of keys ensured by `entrypoints`, the entry is exactly one.
pub proof fn lemma_leaf_yields_route(
    app: Seq<EntryView>,
    ps: PagesStructure,
    d: crate::pages::PagesDirectoryStructure,
    api: bool,
    i: int,
)
    requires
        if api {
            ps.api == Some(d)
        } else {
            ps.pages == Some(d)
        },
        0 <= i < dir_leaves(d).len(),
    ensures
        has_entry_key(
            spec_entrypoints_routes(app, ps),
            seq!['/'] + dir_leaves(d)[i].next_router_path,
        ),
        (seq!['/'] + dir_leaves(d)[i].next_router_path)[0] == '/',
{
    let k = seq!['/'] + dir_leaves(d)[i].next_router_path;
    let empty = Seq::<EntryView>::empty();
    let after_app = spec_insert_all(empty, app);
    let pages_entries = spec_pages_routes(ps);
    // The leaf's entry is in the page-source sequence.
    let e_api = match ps.api {
        Some(ad) => crate::pages::spec_entries_of(dir_leaves(ad), true),
        None => Seq::<EntryView>::empty(),
    };
    let after_api = spec_insert_all(empty, e_api);
    if api {
        let e = crate::pages::spec_entries_of(dir_leaves(d), true);
        assert(e[i].0 == k);
        lemma_insert_all_has_key(empty, e, k);
        match ps.pages {
            Some(p) => {
                lemma_insert_all_has_key(
                    after_api,
                    crate::pages::spec_entries_of(dir_leaves(p), false),
                    k,
                );
            },
            None => {},
        }
    } else {
        let e = crate::pages::spec_entries_of(dir_leaves(d), false);
        assert(e[i].0 == k);
        lemma_insert_all_has_key(after_api, e, k);
    }
    lemma_merge_has_key(after_app, pages_entries, k);
}

/// Law: the merge is deterministic about conflicts. If the app source
/// defines a pathname and the page source also defines it, the final table
/// holds `Conflict` at that pathname — whatever the iteration order inside
/// either source was, since the statement quantifies over every order.
pub proof fn lemma_route_merge_conflict(app: Seq<EntryView>, ps: PagesStructure, k: Seq<char>)
    requires
        exists|i: int| 0 <= i < app.len() && app[i].0 == k,
        exists|j: int|
            0 <= j < spec_pages_routes(ps).len() && spec_pages_routes(ps)[j].0 == k,
    ensures
        has_entry_key(spec_entrypoints_routes(app, ps), k),
        entry_value_of(spec_entrypoints_routes(app, ps), k) == RouteView::Conflict,
{
    let empty = Seq::<EntryView>::empty();
    lemma_insert_all_has_key(empty, app, k);
    lemma_merge_conflict(spec_insert_all(empty, app), spec_pages_routes(ps), k);
}

} // verus!
