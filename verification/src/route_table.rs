//! The route table: an ordered mapping from pathname to route, keys unique,
//! kept in an insertion-ordered map of an outside crate. The map itself is
//! opaque to the verifier; its contents are named by `route_entries`, and a
//! small set of trusted wrappers states what each operation does to them, as
//! the crate's source documents it. Every decision taken over the table is
//! verified against those contracts.

use vstd::prelude::*;
use indexmap::IndexMap;
use crate::route::{Endpoint, EndpointKind, Route};

verus! {

/// Ghost mirror of an endpoint: its fields at the sequence-of-characters
/// level.
pub struct EndpointView {
    pub kind: EndpointKind,
    pub pathname: Seq<char>,
    pub original_name: Seq<char>,
    pub path: Seq<char>,
}

/// Ghost mirror of a route-table entry.
pub enum RouteView {
    Page { html_endpoint: EndpointView, data_endpoint: EndpointView },
    PageApi { endpoint: EndpointView },
    AppRoute { endpoint: EndpointView },
    Conflict,
}

impl View for Endpoint {
    type V = EndpointView;

    open spec fn view(&self) -> EndpointView {
        EndpointView {
            kind: self.kind,
            pathname: self.pathname@,
            original_name: self.original_name@,
            path: self.path@,
        }
    }
}

impl View for Route {
    type V = RouteView;

    open spec fn view(&self) -> RouteView {
        match self {
            Route::Page { html_endpoint, data_endpoint } => RouteView::Page {
                html_endpoint: html_endpoint@,
                data_endpoint: data_endpoint@,
            },
            Route::PageApi { endpoint } => RouteView::PageApi { endpoint: endpoint@ },
            Route::AppRoute { endpoint } => RouteView::AppRoute { endpoint: endpoint@ },
            Route::Conflict => RouteView::Conflict,
        }
    }
}

/// One table entry at the ghost level: pathname and route.
pub type EntryView = (Seq<char>, RouteView);

/// The contents of a route map, in order. Named, not defined: the map is a
/// structure of an outside crate, and the wrappers below say how each
/// operation changes this sequence.
pub uninterp spec fn route_entries(m: IndexMap<String, Route>) -> Seq<EntryView>;

pub open spec fn has_entry_key(s: Seq<EntryView>, k: Seq<char>) -> bool {
    exists|i: int| 0 <= i < s.len() && s[i].0 == k
}

/// The value under the first entry whose key is `k`.
pub open spec fn entry_value_of(s: Seq<EntryView>, k: Seq<char>) -> RouteView
    decreases s.len(),
{
    if s.len() == 0 {
        arbitrary()
    } else if s[0].0 == k {
        s[0].1
    } else {
        entry_value_of(s.subrange(1, s.len() as int), k)
    }
}

/// The first index holding key `k`; `s.len()` when the key is absent.
pub open spec fn entry_index_of(s: Seq<EntryView>, k: Seq<char>) -> nat
    decreases s.len(),
{
    if s.len() == 0 {
        0
    } else if s[0].0 == k {
        0
    } else {
        1 + entry_index_of(s.subrange(1, s.len() as int), k)
    }
}

/// Keys occur at most once.
pub open spec fn entries_unique(s: Seq<EntryView>) -> bool {
    forall|i: int, j: int| 0 <= i < j < s.len() ==> s[i].0 != s[j].0
}

/// Insertion as the map documents it: an existing key keeps its place and
/// its value is replaced; a new key is appended last.
pub open spec fn spec_insert_entry(s: Seq<EntryView>, k: Seq<char>, v: RouteView) -> Seq<
    EntryView,
> {
    if has_entry_key(s, k) {
        s.update(entry_index_of(s, k) as int, (k, v))
    } else {
        s.push((k, v))
    }
}

/// All of `items` inserted in order.
pub open spec fn spec_insert_all(s: Seq<EntryView>, items: Seq<EntryView>) -> Seq<EntryView>
    decreases items.len(),
{
    if items.len() == 0 {
        s
    } else {
        spec_insert_all(spec_insert_entry(s, items[0].0, items[0].1), items.subrange(1, items.len() as int))
    }
}

/// The page-over-app merge policy for one entry: a pathname already owned by
/// an earlier source becomes `Conflict`; a fresh pathname takes the page
/// route.
pub open spec fn spec_merge_entry(s: Seq<EntryView>, k: Seq<char>, v: RouteView) -> Seq<
    EntryView,
> {
    if has_entry_key(s, k) {
        spec_insert_entry(s, k, RouteView::Conflict)
    } else {
        spec_insert_entry(s, k, v)
    }
}

/// All page entries merged in order.
pub open spec fn spec_merge_pages(s: Seq<EntryView>, items: Seq<EntryView>) -> Seq<EntryView>
    decreases items.len(),
{
    if items.len() == 0 {
        s
    } else {
        spec_merge_pages(spec_merge_entry(s, items[0].0, items[0].1), items.subrange(1, items.len() as int))
    }
}

// ---------------------------------------------------------------------------
// Facts about the spec-level table, each proved by induction on the entries.
// ---------------------------------------------------------------------------

pub proof fn lemma_index_of_found(s: Seq<EntryView>, k: Seq<char>)
    ensures
        entry_index_of(s, k) <= s.len(),
        has_entry_key(s, k) <==> entry_index_of(s, k) < s.len(),
        has_entry_key(s, k) ==> s[entry_index_of(s, k) as int].0 == k && entry_value_of(s, k)
            == s[entry_index_of(s, k) as int].1,
        forall|j: int| 0 <= j < entry_index_of(s, k) ==> s[j].0 != k,
    decreases s.len(),
{
    if s.len() > 0 && s[0].0 != k {
        let t = s.subrange(1, s.len() as int);
        lemma_index_of_found(t, k);
        assert forall|i: int| 0 <= i < s.len() && s[i].0 == k implies has_entry_key(t, k) by {
            assert(t[i - 1] == s[i]);
        }
        assert(has_entry_key(t, k) ==> has_entry_key(s, k)) by {
            if has_entry_key(t, k) {
                let i = choose|i: int| 0 <= i < t.len() && t[i].0 == k;
                assert(s[i + 1] == t[i]);
            }
        }
        assert forall|j: int| 0 <= j < entry_index_of(s, k) implies s[j].0 != k by {
            if j > 0 {
                assert(t[j - 1] == s[j]);
            }
        }
    }
}

pub proof fn lemma_insert_keys(s: Seq<EntryView>, k: Seq<char>, v: RouteView, k2: Seq<char>)
    ensures
        has_entry_key(spec_insert_entry(s, k, v), k2) <==> (has_entry_key(s, k2) || k2 == k),
{
    let s2 = spec_insert_entry(s, k, v);
    lemma_index_of_found(s, k);
    if has_entry_key(s, k) {
        let i = entry_index_of(s, k) as int;
        assert forall|j: int| 0 <= j < s.len() && s[j].0 == k2 implies has_entry_key(s2, k2) by {
            if j == i {
                assert(s2[i].0 == k && k == k2);
            } else {
                assert(s2[j].0 == k2);
            }
        }
        if has_entry_key(s2, k2) {
            let j = choose|j: int| 0 <= j < s2.len() && s2[j].0 == k2;
            if j == i {
                assert(k2 == k);
            } else {
                assert(s[j].0 == k2);
            }
        }
    } else {
        if has_entry_key(s, k2) {
            let j = choose|j: int| 0 <= j < s.len() && s[j].0 == k2;
            assert(s2[j].0 == k2);
        }
        if k2 == k {
            assert(s2[s.len() as int].0 == k2);
        }
        if has_entry_key(s2, k2) {
            let j = choose|j: int| 0 <= j < s2.len() && s2[j].0 == k2;
            if j < s.len() {
                assert(s[j].0 == k2);
            } else {
                assert(k2 == k);
            }
        }
    }
}

pub proof fn lemma_lookup_insert_same(s: Seq<EntryView>, k: Seq<char>, v: RouteView)
    ensures
        entry_value_of(spec_insert_entry(s, k, v), k) == v,
    decreases s.len(),
{
    let s2 = spec_insert_entry(s, k, v);
    lemma_index_of_found(s, k);
    if s.len() == 0 {
        assert(s2 =~= seq![(k, v)]);
    } else if s[0].0 == k {
        assert(s2[0] == (k, v));
    } else {
        let t = s.subrange(1, s.len() as int);
        lemma_lookup_insert_same(t, k, v);
        lemma_index_of_found(t, k);
        if has_entry_key(s, k) {
            assert(has_entry_key(t, k)) by {
                let i = choose|i: int| 0 <= i < s.len() && s[i].0 == k;
                assert(t[i - 1] == s[i]);
            }
            assert(entry_index_of(s, k) == 1 + entry_index_of(t, k));
            assert(s2[0] == s[0]);
            assert(s2.subrange(1, s2.len() as int) =~= spec_insert_entry(t, k, v));
        } else {
            assert(!has_entry_key(t, k)) by {
                if has_entry_key(t, k) {
                    let i = choose|i: int| 0 <= i < t.len() && t[i].0 == k;
                    assert(s[i + 1] == t[i]);
                }
            }
            assert(s2[0] == s[0]);
            assert(s2.subrange(1, s2.len() as int) =~= spec_insert_entry(t, k, v));
        }
    }
}

pub proof fn lemma_lookup_insert_other(s: Seq<EntryView>, k: Seq<char>, v: RouteView, k2: Seq<char>)
    requires
        k2 != k,
    ensures
        has_entry_key(s, k2) ==> entry_value_of(spec_insert_entry(s, k, v), k2) == entry_value_of(
            s,
            k2,
        ),
    decreases s.len(),
{
    let s2 = spec_insert_entry(s, k, v);
    lemma_index_of_found(s, k);
    if !has_entry_key(s, k2) {
    } else if s.len() == 0 {
    } else {
        let t = s.subrange(1, s.len() as int);
        assert(has_entry_key(t, k2) || s[0].0 == k2) by {
            let i = choose|i: int| 0 <= i < s.len() && s[i].0 == k2;
            if i > 0 {
                assert(t[i - 1] == s[i]);
            }
        }
        if s[0].0 == k {
            // replaced in place at index 0; k2 is elsewhere
            assert(s2 == s.update(0, (k, v)));
            assert(s2.subrange(1, s2.len() as int) =~= t);
            assert(s2[0].0 == k);
            if s[0].0 == k2 {
                assert(false);
            }
        } else {
            lemma_lookup_insert_other(t, k, v, k2);
            lemma_index_of_found(t, k);
            if has_entry_key(s, k) {
                assert(has_entry_key(t, k)) by {
                    let i = choose|i: int| 0 <= i < s.len() && s[i].0 == k;
                    assert(t[i - 1] == s[i]);
                }
                assert(s2[0] == s[0]);
                assert(s2.subrange(1, s2.len() as int) =~= spec_insert_entry(t, k, v));
            } else {
                assert(!has_entry_key(t, k)) by {
                    if has_entry_key(t, k) {
                        let i = choose|i: int| 0 <= i < t.len() && t[i].0 == k;
                        assert(s[i + 1] == t[i]);
                    }
                }
                assert(s2[0] == s[0]);
                assert(s2.subrange(1, s2.len() as int) =~= spec_insert_entry(t, k, v));
            }
        }
    }
}

pub proof fn lemma_insert_all_unique(s: Seq<EntryView>, items: Seq<EntryView>)
    requires
        entries_unique(s),
    ensures
        entries_unique(spec_insert_all(s, items)),
    decreases items.len(),
{
    if items.len() > 0 {
        lemma_insert_unique(s, items[0].0, items[0].1);
        lemma_insert_all_unique(
            spec_insert_entry(s, items[0].0, items[0].1),
            items.subrange(1, items.len() as int),
        );
    }
}

/// A key is in the table after a bulk insert exactly when it was there
/// before or one of the inserted entries carries it.
pub proof fn lemma_insert_all_has_key(s: Seq<EntryView>, items: Seq<EntryView>, k: Seq<char>)
    ensures
        has_entry_key(spec_insert_all(s, items), k) <==> (has_entry_key(s, k) || exists|i: int|
            0 <= i < items.len() && items[i].0 == k),
    decreases items.len(),
{
    if items.len() > 0 {
        let s2 = spec_insert_entry(s, items[0].0, items[0].1);
        let rest = items.subrange(1, items.len() as int);
        lemma_insert_keys(s, items[0].0, items[0].1, k);
        lemma_insert_all_has_key(s2, rest, k);
        if has_entry_key(spec_insert_all(s, items), k) {
            if !(has_entry_key(s, k)) && items[0].0 != k {
                let i = choose|i: int| 0 <= i < rest.len() && rest[i].0 == k;
                assert(items[i + 1] == rest[i]);
            }
        }
        if exists|i: int| 0 <= i < items.len() && items[i].0 == k {
            let i = choose|i: int| 0 <= i < items.len() && items[i].0 == k;
            if i > 0 {
                assert(rest[i - 1] == items[i]);
            }
        }
    }
}

pub proof fn lemma_merge_unique(s: Seq<EntryView>, items: Seq<EntryView>)
    requires
        entries_unique(s),
    ensures
        entries_unique(spec_merge_pages(s, items)),
    decreases items.len(),
{
    if items.len() > 0 {
        if has_entry_key(s, items[0].0) {
            lemma_insert_unique(s, items[0].0, RouteView::Conflict);
        } else {
            lemma_insert_unique(s, items[0].0, items[0].1);
        }
        lemma_merge_unique(spec_merge_entry(s, items[0].0, items[0].1), items.subrange(1, items.len() as int));
    }
}

/// Merging never removes a key.
pub proof fn lemma_merge_keeps_key(s: Seq<EntryView>, items: Seq<EntryView>, k: Seq<char>)
    requires
        has_entry_key(s, k),
    ensures
        has_entry_key(spec_merge_pages(s, items), k),
    decreases items.len(),
{
    if items.len() > 0 {
        lemma_insert_keys(
            s,
            items[0].0,
            if has_entry_key(s, items[0].0) {
                RouteView::Conflict
            } else {
                items[0].1
            },
            k,
        );
        lemma_merge_keeps_key(spec_merge_entry(s, items[0].0, items[0].1), items.subrange(1, items.len() as int), k);
    }
}

/// Once a pathname holds the conflict sentinel, further page merging leaves
/// it in place.
pub proof fn lemma_merge_keeps_conflict(s: Seq<EntryView>, items: Seq<EntryView>, k: Seq<char>)
    requires
        has_entry_key(s, k),
        entry_value_of(s, k) == RouteView::Conflict,
    ensures
        has_entry_key(spec_merge_pages(s, items), k),
        entry_value_of(spec_merge_pages(s, items), k) == RouteView::Conflict,
    decreases items.len(),
{
    lemma_merge_keeps_key(s, items, k);
    if items.len() > 0 {
        let k0 = items[0].0;
        let v0 = if has_entry_key(s, k0) {
            RouteView::Conflict
        } else {
            items[0].1
        };
        let s2 = spec_insert_entry(s, k0, v0);
        lemma_insert_keys(s, k0, v0, k);
        if k0 == k {
            lemma_lookup_insert_same(s, k0, RouteView::Conflict);
        } else {
            lemma_lookup_insert_other(s, k0, v0, k);
        }
        lemma_merge_keeps_conflict(s2, items.subrange(1, items.len() as int), k);
    }
}

/// Law of the route merge: when an earlier source already owns pathname `k`
/// and the page source also carries `k`, the merged table holds `Conflict`
/// at `k` — for every iteration order of either source.
pub proof fn lemma_merge_conflict(s: Seq<EntryView>, items: Seq<EntryView>, k: Seq<char>)
    requires
        has_entry_key(s, k),
        exists|i: int| 0 <= i < items.len() && items[i].0 == k,
    ensures
        has_entry_key(spec_merge_pages(s, items), k),
        entry_value_of(spec_merge_pages(s, items), k) == RouteView::Conflict,
    decreases items.len(),
{
    let k0 = items[0].0;
    let v0 = if has_entry_key(s, k0) {
        RouteView::Conflict
    } else {
        items[0].1
    };
    let s2 = spec_insert_entry(s, k0, v0);
    let rest = items.subrange(1, items.len() as int);
    lemma_insert_keys(s, k0, v0, k);
    if k0 == k {
        lemma_lookup_insert_same(s, k, RouteView::Conflict);
        lemma_merge_keeps_conflict(s2, rest, k);
    } else {
        lemma_lookup_insert_other(s, k0, v0, k);
        assert(exists|i: int| 0 <= i < rest.len() && rest[i].0 == k) by {
            let i = choose|i: int| 0 <= i < items.len() && items[i].0 == k;
            assert(rest[i - 1] == items[i]);
        }
        lemma_merge_conflict(s2, rest, k);
    }
}

pub proof fn lemma_insert_unique(s: Seq<EntryView>, k: Seq<char>, v: RouteView)
    requires
        entries_unique(s),
    ensures
        entries_unique(spec_insert_entry(s, k, v)),
{
    let s2 = spec_insert_entry(s, k, v);
    lemma_index_of_found(s, k);
    if has_entry_key(s, k) {
        let i = entry_index_of(s, k) as int;
        assert forall|a: int, b: int| 0 <= a < b < s2.len() implies s2[a].0 != s2[b].0 by {
            if a == i {
                assert(s2[a].0 == s[i].0);
            } else if b == i {
                assert(s2[b].0 == s[i].0);
            }
        }
    } else {
        assert forall|a: int, b: int| 0 <= a < b < s2.len() implies s2[a].0 != s2[b].0 by {
            if b == s.len() {
                assert(s2[b].0 == k);
                assert(s2[a].0 == s[a].0);
            }
        }
    }
}

pub proof fn lemma_merge_concat(s: Seq<EntryView>, a: Seq<EntryView>, b: Seq<EntryView>)
    ensures
        spec_merge_pages(s, a + b) == spec_merge_pages(spec_merge_pages(s, a), b),
    decreases a.len(),
{
    if a.len() == 0 {
        assert(a + b =~= b);
        assert(spec_merge_pages(s, a) == s);
    } else {
        let s2 = spec_merge_entry(s, a[0].0, a[0].1);
        assert((a + b)[0] == a[0]);
        assert((a + b).subrange(1, (a + b).len() as int) =~= a.subrange(1, a.len() as int) + b);
        lemma_merge_concat(s2, a.subrange(1, a.len() as int), b);
    }
}

pub proof fn lemma_merge_push(s: Seq<EntryView>, items: Seq<EntryView>, x: EntryView)
    ensures
        spec_merge_pages(s, items.push(x)) == spec_merge_entry(
            spec_merge_pages(s, items),
            x.0,
            x.1,
        ),
{
    lemma_merge_concat(s, items, seq![x]);
    assert(items.push(x) =~= items + seq![x]);
    let s2 = spec_merge_pages(s, items);
    assert(seq![x].subrange(1, 1) =~= Seq::<EntryView>::empty());
    assert(spec_merge_pages(spec_merge_entry(s2, x.0, x.1), Seq::<EntryView>::empty())
        == spec_merge_entry(s2, x.0, x.1));
}

/// A key is in the table after the merge exactly when it was there before or
/// some page entry carries it.
pub proof fn lemma_merge_has_key(s: Seq<EntryView>, items: Seq<EntryView>, k: Seq<char>)
    ensures
        has_entry_key(spec_merge_pages(s, items), k) <==> (has_entry_key(s, k) || exists|i: int|
            0 <= i < items.len() && items[i].0 == k),
    decreases items.len(),
{
    if items.len() > 0 {
        let v0 = if has_entry_key(s, items[0].0) {
            RouteView::Conflict
        } else {
            items[0].1
        };
        let s2 = spec_insert_entry(s, items[0].0, v0);
        let rest = items.subrange(1, items.len() as int);
        lemma_insert_keys(s, items[0].0, v0, k);
        lemma_merge_has_key(s2, rest, k);
        if has_entry_key(spec_merge_pages(s, items), k) {
            if !(has_entry_key(s, k)) && items[0].0 != k {
                let i = choose|i: int| 0 <= i < rest.len() && rest[i].0 == k;
                assert(items[i + 1] == rest[i]);
            }
        }
        if exists|i: int| 0 <= i < items.len() && items[i].0 == k {
            let i = choose|i: int| 0 <= i < items.len() && items[i].0 == k;
            if i > 0 {
                assert(rest[i - 1] == items[i]);
            }
        }
    }
}

// ---------------------------------------------------------------------------
// The insertion-ordered map of the outside crate, declared for the verifier,
// and the trusted wrappers the verified code goes through.
// ---------------------------------------------------------------------------

#[verifier::external_type_specification]
#[verifier::external_body]
#[verifier::reject_recursive_types(K)]
#[verifier::reject_recursive_types(V)]
#[verifier::reject_recursive_types(S)]
pub struct ExIndexMap<K, V, S>(IndexMap<K, V, S>);

/// Relies on indexmap's IndexMap::new: creates an empty map.
#[verifier::external_body]
pub(crate) fn route_map_new() -> (m: IndexMap<String, Route>)
    ensures
        route_entries(m) == Seq::<EntryView>::empty(),
{
    IndexMap::new()
}

/// Relies on indexmap's IndexMap::insert: an equivalent key remains at its
/// place in the order and takes the new value; a new key is appended last.
#[verifier::external_body]
pub(crate) fn route_map_insert(m: &mut IndexMap<String, Route>, k: String, v: Route)
    ensures
        route_entries(*final(m)) == spec_insert_entry(route_entries(*old(m)), k@, v@),
{
    m.insert(k, v);
}

/// Relies on indexmap's IndexMap::contains_key: whether an equivalent key is
/// present.
#[verifier::external_body]
pub(crate) fn route_map_contains_key(m: &IndexMap<String, Route>, k: &String) -> (r: bool)
    ensures
        r == has_entry_key(route_entries(*m), k@),
{
    m.contains_key(k)
}

/// Relies on indexmap's IndexMap::iter: the entries in insertion order,
/// cloned one for one into plain pairs.
#[verifier::external_body]
pub(crate) fn route_map_to_vec(m: &IndexMap<String, Route>) -> (r: Vec<(String, Route)>)
    ensures
        r@.len() == route_entries(*m).len(),
        forall|i: int|
            0 <= i < r@.len() ==> ((#[trigger] r@[i]).0@, r@[i].1@) == route_entries(*m)[i],
{
    m.iter().map(|(k, v)| (k.clone(), v.clone())).collect()
}

} // verus!
