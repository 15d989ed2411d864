//! Resolution of the page/api directory structure into routes. The structure
//! is a tree: each directory holds the leaf items found in it and its child
//! directories. The walk is an explicit worklist, not recursion, so that
//! arbitrarily deep route trees are tolerated; every leaf yields exactly one
//! route entry, keyed by `"/" + router-relative path`.

use vstd::prelude::*;
use indexmap::IndexMap;
use crate::route::{Endpoint, EndpointKind, Route};
use crate::route_table::{
    entries_unique, lemma_insert_all_unique, route_entries, route_map_insert, route_map_new,
    spec_insert_all, spec_insert_entry, EndpointView, EntryView, RouteView,
};
use crate::paths::pathname_with_slash;

verus! {

/// One leaf entry file: its router-relative path, the path it was originally
/// named under, and the source file path in the project.
#[derive(Debug, Clone)]
pub struct PagesStructureItem {
    pub next_router_path: String,
    pub original_path: String,
    pub project_path: String,
}

/// A directory of the page tree: leaf items plus child directories.
#[derive(Debug)]
pub struct PagesDirectoryStructure {
    pub items: Vec<PagesStructureItem>,
    pub children: Vec<PagesDirectoryStructure>,
}

/// The scanned page/api directory pair of one project.
#[derive(Debug)]
pub struct PagesStructure {
    pub api: Option<PagesDirectoryStructure>,
    pub pages: Option<PagesDirectoryStructure>,
}

/// Ghost mirror of a leaf item.
pub struct ItemView {
    pub next_router_path: Seq<char>,
    pub original_path: Seq<char>,
    pub project_path: Seq<char>,
}

impl View for PagesStructureItem {
    type V = ItemView;

    open spec fn view(&self) -> ItemView {
        ItemView {
            next_router_path: self.next_router_path@,
            original_path: self.original_path@,
            project_path: self.project_path@,
        }
    }
}

pub open spec fn item_views(items: Seq<PagesStructureItem>) -> Seq<ItemView> {
    items.map_values(|it: PagesStructureItem| it@)
}

/// Every leaf item of the tree rooted at `d`, in preorder: the directory's
/// own items first, then the items of each child subtree in order.
pub open spec fn dir_leaves(d: PagesDirectoryStructure) -> Seq<ItemView>
    decreases d, d.children@.len() + 1int,
{
    item_views(d.items@) + children_leaves(d, 0)
}

/// The leaves of the subtrees rooted at `d.children[i..]`.
pub open spec fn children_leaves(d: PagesDirectoryStructure, i: int) -> Seq<ItemView>
    decreases d, d.children@.len() - i,
{
    if 0 <= i < d.children@.len() {
        dir_leaves(d.children@[i]) + children_leaves(d, i + 1)
    } else {
        Seq::<ItemView>::empty()
    }
}

/// The route entry one leaf yields: a page leaf constructs both an HTML and
/// a data endpoint; an API leaf constructs a single API endpoint. The key is
/// the router-relative path behind `/`.
pub open spec fn spec_page_entry(it: ItemView, api: bool) -> EntryView {
    let pathname = seq!['/'] + it.next_router_path;
    let original_name = seq!['/'] + it.original_path;
    if api {
        (
            pathname,
            RouteView::PageApi {
                endpoint: EndpointView {
                    kind: EndpointKind::PageApi,
                    pathname,
                    original_name,
                    path: it.project_path,
                },
            },
        )
    } else {
        (
            pathname,
            RouteView::Page {
                html_endpoint: EndpointView {
                    kind: EndpointKind::PageHtml,
                    pathname,
                    original_name,
                    path: it.project_path,
                },
                data_endpoint: EndpointView {
                    kind: EndpointKind::PageData,
                    pathname,
                    original_name,
                    path: it.project_path,
                },
            },
        )
    }
}

pub open spec fn spec_entries_of(items: Seq<ItemView>, api: bool) -> Seq<EntryView> {
    items.map_values(|it: ItemView| spec_page_entry(it, api))
}

/// The whole route table the page/api structure resolves to: api-derived
/// entries inserted first, then page-derived entries.
pub open spec fn spec_pages_routes(ps: PagesStructure) -> Seq<EntryView> {
    let after_api = match ps.api {
        Some(d) => spec_insert_all(Seq::<EntryView>::empty(), spec_entries_of(dir_leaves(d), true)),
        None => Seq::<EntryView>::empty(),
    };
    match ps.pages {
        Some(d) => spec_insert_all(after_api, spec_entries_of(dir_leaves(d), false)),
        None => after_api,
    }
}

// ---------------------------------------------------------------------------
// Distribution lemmas for the bulk-insert fold.
// ---------------------------------------------------------------------------

pub proof fn lemma_insert_all_concat(s: Seq<EntryView>, a: Seq<EntryView>, b: Seq<EntryView>)
    ensures
        spec_insert_all(s, a + b) == spec_insert_all(spec_insert_all(s, a), b),
    decreases a.len(),
{
    if a.len() == 0 {
        assert(a + b =~= b);
        assert(spec_insert_all(s, a) == s);
    } else {
        let s2 = spec_insert_entry(s, a[0].0, a[0].1);
        assert((a + b)[0] == a[0]);
        assert((a + b).subrange(1, (a + b).len() as int) =~= a.subrange(1, a.len() as int) + b);
        lemma_insert_all_concat(s2, a.subrange(1, a.len() as int), b);
    }
}

pub proof fn lemma_entries_of_concat(a: Seq<ItemView>, b: Seq<ItemView>, api: bool)
    ensures
        spec_entries_of(a + b, api) == spec_entries_of(a, api) + spec_entries_of(b, api),
{
    assert(spec_entries_of(a + b, api) =~= spec_entries_of(a, api) + spec_entries_of(b, api));
}

pub proof fn lemma_insert_all_push(s: Seq<EntryView>, items: Seq<EntryView>, x: EntryView)
    ensures
        spec_insert_all(s, items.push(x)) == spec_insert_entry(
            spec_insert_all(s, items),
            x.0,
            x.1,
        ),
{
    lemma_insert_all_concat(s, items, seq![x]);
    assert(items.push(x) =~= items + seq![x]);
    let s2 = spec_insert_all(s, items);
    assert(seq![x].subrange(1, 1) =~= Seq::<EntryView>::empty());
    assert(spec_insert_all(spec_insert_entry(s2, x.0, x.1), Seq::<EntryView>::empty())
        == spec_insert_entry(s2, x.0, x.1));
}

// ---------------------------------------------------------------------------
// The worklist measure: the number of directories in a tree.
// ---------------------------------------------------------------------------

pub open spec fn dir_size(d: PagesDirectoryStructure) -> nat
    decreases d, d.children@.len() + 1int,
{
    1 + children_size(d, 0)
}

/// The combined size of the subtrees rooted at `d.children[i..]`.
pub open spec fn children_size(d: PagesDirectoryStructure, i: int) -> nat
    decreases d, d.children@.len() - i,
{
    if 0 <= i < d.children@.len() {
        dir_size(d.children@[i]) + children_size(d, i + 1)
    } else {
        0
    }
}

/// The leaves still to be collected, top of the worklist first.
pub open spec fn stack_leaves(st: Seq<&PagesDirectoryStructure>) -> Seq<ItemView>
    decreases st.len(),
{
    if st.len() == 0 {
        Seq::<ItemView>::empty()
    } else {
        dir_leaves(*st.last()) + stack_leaves(st.drop_last())
    }
}

pub open spec fn stack_size(st: Seq<&PagesDirectoryStructure>) -> nat
    decreases st.len(),
{
    if st.len() == 0 {
        0
    } else {
        dir_size(*st.last()) + stack_size(st.drop_last())
    }
}

/// Inserts one route entry per leaf item of the tree rooted at `dir` into
/// `routes`, walking the tree with an explicit worklist. A page leaf yields
/// an HTML and a data endpoint, an API leaf a single API endpoint.
pub fn add_dir_to_routes(routes: &mut IndexMap<String, Route>, dir: &PagesDirectoryStructure, api: bool)
    ensures
        route_entries(*final(routes)) == spec_insert_all(
            route_entries(*old(routes)),
            spec_entries_of(dir_leaves(*dir), api),
        ),
{
    let ghost goal = spec_insert_all(
        route_entries(*old(routes)),
        spec_entries_of(dir_leaves(*dir), api),
    );
    let mut stack: Vec<&PagesDirectoryStructure> = Vec::new();
    stack.push(dir);
    proof {
        let empty_st = Seq::<&PagesDirectoryStructure>::empty();
        assert(stack_leaves(empty_st) =~= Seq::<ItemView>::empty());
        assert(stack@.drop_last() =~= empty_st);
        assert(stack_leaves(stack@) == dir_leaves(*stack@.last()) + stack_leaves(empty_st));
        assert(stack_leaves(stack@) =~= dir_leaves(*dir));
    }
    while stack.len() > 0
        invariant
            spec_insert_all(route_entries(*routes), spec_entries_of(stack_leaves(stack@), api))
                == goal,
        decreases stack_size(stack@),
    {
        let ghost stack_pre = stack@;
        let d = stack.pop().unwrap();
        let ghost rest = stack@;
        let ghost rest_leaves = stack_leaves(rest);
        let ghost rest_size = stack_size(rest);
        proof {
            assert(stack_pre.last() == d);
            assert(stack_pre.drop_last() =~= rest);
            assert(stack_leaves(stack_pre) == dir_leaves(*d) + rest_leaves);
            assert(stack_size(stack_pre) == dir_size(*d) + rest_size);
        }
        let ghost entries0 = route_entries(*routes);
        // The directory's own leaf items become route entries.
        let mut i: usize = 0;
        while i < d.items.len()
            invariant
                i <= d.items@.len(),
                route_entries(*routes) == spec_insert_all(
                    entries0,
                    spec_entries_of(item_views(d.items@.subrange(0, i as int)), api),
                ),
            decreases d.items@.len() - i,
        {
            let it = &d.items[i];
            let pathname = pathname_with_slash(it.next_router_path.as_str());
            let original_name = pathname_with_slash(it.original_path.as_str());
            let route = if api {
                Route::PageApi {
                    endpoint: Endpoint::new_api(
                        pathname.clone(),
                        original_name,
                        it.project_path.clone(),
                    ),
                }
            } else {
                Route::Page {
                    html_endpoint: Endpoint::new_page_html(
                        pathname.clone(),
                        original_name.clone(),
                        it.project_path.clone(),
                    ),
                    data_endpoint: Endpoint::new_page_data(
                        pathname.clone(),
                        original_name,
                        it.project_path.clone(),
                    ),
                }
            };
            let ghost before = route_entries(*routes);
            let ghost entry = spec_page_entry(d.items@[i as int]@, api);
            proof {
                assert(pathname@ == entry.0);
                assert(route@ == entry.1);
            }
            route_map_insert(routes, pathname, route);
            proof {
                let prefix = item_views(d.items@.subrange(0, i as int));
                let prefix2 = item_views(d.items@.subrange(0, i + 1));
                assert(spec_entries_of(prefix2, api) =~= spec_entries_of(prefix, api).push(entry));
                lemma_insert_all_push(entries0, spec_entries_of(prefix, api), entry);
            }
            i += 1;
        }
        proof {
            assert(d.items@.subrange(0, d.items@.len() as int) =~= d.items@);
        }
        let ghost entries1 = route_entries(*routes);
        // The children join the worklist; the first child will be taken next.
        let mut j: usize = d.children.len();
        while j > 0
            invariant
                j <= d.children@.len(),
                route_entries(*routes) == entries1,
                stack_leaves(stack@) == children_leaves(*d, j as int) + rest_leaves,
                stack_size(stack@) == children_size(*d, j as int) + rest_size,
            decreases j,
        {
            j = j - 1;
            let ghost stack_before = stack@;
            stack.push(&d.children[j]);
            proof {
                assert(stack@.last() == &d.children@[j as int]);
                assert(stack@.drop_last() =~= stack_before);
                assert(dir_leaves(d.children@[j as int]) + (children_leaves(*d, j + 1)
                    + rest_leaves) =~= (dir_leaves(d.children@[j as int]) + children_leaves(
                    *d,
                    j + 1,
                )) + rest_leaves);
                assert(children_leaves(*d, j as int) == dir_leaves(d.children@[j as int])
                    + children_leaves(*d, j + 1));
            }
        }
        proof {
            // The work left is unchanged: the directory's leaves were either
            // inserted or re-queued, and one directory node left the stack.
            assert(entries1 == spec_insert_all(
                entries0,
                spec_entries_of(item_views(d.items@), api),
            ));
            let e_items = spec_entries_of(item_views(d.items@), api);
            let e_children = spec_entries_of(children_leaves(*d, 0), api);
            let e_rest = spec_entries_of(rest_leaves, api);
            lemma_entries_of_concat(item_views(d.items@), children_leaves(*d, 0), api);
            lemma_entries_of_concat(dir_leaves(*d), rest_leaves, api);
            lemma_entries_of_concat(children_leaves(*d, 0), rest_leaves, api);
            lemma_insert_all_concat(entries0, e_items + e_children, e_rest);
            lemma_insert_all_concat(entries0, e_items, e_children);
            lemma_insert_all_concat(entries1, e_children, e_rest);
            assert(dir_leaves(*d) == item_views(d.items@) + children_leaves(*d, 0));
        }
    }
    proof {
        assert(stack_leaves(stack@) =~= Seq::<ItemView>::empty());
        assert(spec_entries_of(Seq::<ItemView>::empty(), api) =~= Seq::<EntryView>::empty());
    }
}

/// Resolves the scanned page/api structure into one route table: API routes
/// first, then page routes, each leaf contributing exactly one entry keyed
/// by its `/`-prefixed router path.
pub fn get_pages_routes(page_structure: &PagesStructure) -> (r: IndexMap<String, Route>)
    ensures
        route_entries(r) == spec_pages_routes(*page_structure),
        entries_unique(route_entries(r)),
{
    let mut routes = route_map_new();
    if let Some(api) = &page_structure.api {
        add_dir_to_routes(&mut routes, api, true);
    }
    if let Some(pages) = &page_structure.pages {
        add_dir_to_routes(&mut routes, pages, false);
    }
    proof {
        let empty = Seq::<EntryView>::empty();
        assert(entries_unique(empty));
        match &page_structure.api {
            Some(d) => {
                lemma_insert_all_unique(empty, spec_entries_of(dir_leaves(*d), true));
                match &page_structure.pages {
                    Some(p) => {
                        lemma_insert_all_unique(
                            spec_insert_all(empty, spec_entries_of(dir_leaves(*d), true)),
                            spec_entries_of(dir_leaves(*p), false),
                        );
                    },
                    None => {},
                }
            },
            None => {
                match &page_structure.pages {
                    Some(p) => {
                        lemma_insert_all_unique(empty, spec_entries_of(dir_leaves(*p), false));
                    },
                    None => {},
                }
            },
        }
    }
    routes
}

} // verus!
